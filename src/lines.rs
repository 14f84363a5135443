//! Splitting text into lines and joining lines back into text.
use vstd::prelude::*;

verus! {

/// Length of the first line of `s`: the index of the first `'\n'`, or the
/// length of `s` when it holds none.
pub open spec fn line_end(s: Seq<char>) -> nat
    decreases s.len(),
{
    if s.len() == 0 || s[0] == '\n' {
        0
    } else {
        line_end(s.drop_first()) + 1
    }
}

/// `l` without one trailing carriage return.
pub open spec fn strip_cr(l: Seq<char>) -> Seq<char> {
    if l.len() > 0 && l.last() == '\r' {
        l.drop_last()
    } else {
        l
    }
}

/// The lines of `s`: split at `"\n"` and `"\r\n"`, terminators left out; a
/// final line ending is optional and yields no empty last line.
pub open spec fn lines_of(s: Seq<char>) -> Seq<Seq<char>>
    decreases s.len(),
{
    if s.len() == 0 {
        seq![]
    } else {
        let k = line_end(s) as int;
        if k >= s.len() {
            seq![s]
        } else {
            seq![strip_cr(s.take(k))] + lines_of(s.skip(k + 1))
        }
    }
}

/// The lines joined with a single `'\n'` between two lines, none at the end.
pub open spec fn join_lines(ls: Seq<Seq<char>>) -> Seq<char>
    decreases ls.len(),
{
    if ls.len() == 0 {
        seq![]
    } else if ls.len() == 1 {
        ls[0]
    } else {
        ls[0] + seq!['\n'] + join_lines(ls.drop_first())
    }
}

/// The views of a list of strings.
pub open spec fn views(v: Seq<String>) -> Seq<Seq<char>> {
    v.map_values(|s: String| s@)
}

/// Lines that `lines_of` gives back unchanged once joined: none holds a
/// `'\n'`, the last one is not empty, and no line but the last ends in `'\r'`.
pub open spec fn joinable(ls: Seq<Seq<char>>) -> bool {
    &&& forall|i: int, j: int| 0 <= i < ls.len() && 0 <= j < ls[i].len() ==> ls[i][j] != '\n'
    &&& ls.len() > 0 ==> ls.last().len() > 0
    &&& forall|i: int|
        0 <= i < ls.len() - 1 && #[trigger] ls[i].len() > 0 ==> ls[i].last() != '\r'
}

proof fn lemma_line_end_at(s: Seq<char>, j: int)
    requires
        0 <= j <= s.len(),
        forall|m: int| 0 <= m < j ==> s[m] != '\n',
        j == s.len() || s[j] == '\n',
    ensures
        line_end(s) == j,
    decreases j,
{
    if j > 0 {
        lemma_line_end_at(s.drop_first(), j - 1);
    }
}

proof fn lemma_join_push(ls: Seq<Seq<char>>, l: Seq<char>)
    requires
        ls.len() > 0,
    ensures
        join_lines(ls.push(l)) == join_lines(ls) + seq!['\n'] + l,
    decreases ls.len(),
{
    let pushed = ls.push(l);
    assert(pushed[0] == ls[0]);
    if ls.len() == 1 {
        assert(pushed.drop_first() =~= seq![l]);
        assert(join_lines(seq![l]) == l);
        assert(join_lines(pushed) =~= join_lines(ls) + seq!['\n'] + l);
    } else {
        let rest = ls.drop_first();
        assert(ls.push(l).drop_first() =~= rest.push(l));
        lemma_join_push(rest, l);
        assert(join_lines(ls.push(l)) =~= ls[0] + seq!['\n'] + (join_lines(rest) + seq!['\n'] + l));
        assert(join_lines(ls) =~= ls[0] + seq!['\n'] + join_lines(rest));
        assert(join_lines(pushed) =~= join_lines(ls) + seq!['\n'] + l);
    }
}

/// Joining lines and splitting the result gives the lines back.
pub proof fn lemma_lines_of_join(ls: Seq<Seq<char>>)
    requires
        joinable(ls),
    ensures
        lines_of(join_lines(ls)) == ls,
    decreases ls.len(),
{
    if ls.len() == 0 {
    } else if ls.len() == 1 {
        let s = ls[0];
        assert forall|m: int| 0 <= m < s.len() implies s[m] != '\n' by {
            assert(ls[0][m] != '\n');
        }
        lemma_line_end_at(s, s.len() as int);
        assert(lines_of(s) =~= seq![s]);
    } else {
        let rest = ls.drop_first();
        let s = join_lines(ls);
        let l0 = ls[0];
        assert(s == l0 + seq!['\n'] + join_lines(rest));
        assert forall|m: int| 0 <= m < l0.len() implies s[m] != '\n' by {
            assert(ls[0][m] != '\n');
        }
        lemma_line_end_at(s, l0.len() as int);
        assert(s.take(l0.len() as int) =~= l0);
        assert(s.skip(l0.len() as int + 1) =~= join_lines(rest));
        assert(strip_cr(l0) == l0) by {
            if l0.len() > 0 {
                assert(ls[0].len() > 0);
            }
        }
        assert(joinable(rest)) by {
            assert forall|i: int, j: int| 0 <= i < rest.len() && 0 <= j < rest[i].len() implies rest[i][j] != '\n' by {
                assert(rest[i] == ls[i + 1]);
            }
            assert forall|i: int| 0 <= i < rest.len() - 1 && #[trigger] rest[i].len() > 0 implies rest[i].last() != '\r' by {
                assert(rest[i] == ls[i + 1]);
            }
        }
        lemma_lines_of_join(rest);
        assert(lines_of(s) =~= seq![l0] + rest);
        assert(seq![l0] + rest =~= ls);
    }
}

proof fn lemma_lines_of_step(t: Seq<char>, j: int)
    requires
        0 <= j < t.len(),
        forall|m: int| 0 <= m < j ==> t[m] != '\n',
        t[j] == '\n',
    ensures
        lines_of(t) == seq![strip_cr(t.take(j))] + lines_of(t.skip(j + 1)),
{
    lemma_line_end_at(t, j);
}

proof fn lemma_lines_of_last(t: Seq<char>)
    requires
        t.len() > 0,
        forall|m: int| 0 <= m < t.len() ==> t[m] != '\n',
    ensures
        lines_of(t) == seq![t],
{
    lemma_line_end_at(t, t.len() as int);
}

/// The lines of `text`, as `str::lines` yields them.
pub fn split_lines(text: &str) -> (r: Vec<String>)
    ensures
        views(r@) == lines_of(text@),
{
    let n = text.unicode_len();
    let mut out: Vec<String> = Vec::new();
    let mut start: usize = 0;
    let mut i: usize = 0;
    proof {
        assert(text@.skip(0) =~= text@);
        assert(views(out@) + lines_of(text@) =~= lines_of(text@));
    }
    while i < n
        invariant
            n == text@.len(),
            start <= i <= n,
            forall|m: int| start <= m < i ==> text@[m] != '\n',
            views(out@) + lines_of(text@.skip(start as int)) == lines_of(text@),
        decreases n - i,
    {
        if text.get_char(i) == '\n' {
            let ghost t = text@.skip(start as int);
            let ghost j = i - start;
            proof {
                lemma_lines_of_step(t, j);
                assert(t.skip(j + 1) =~= text@.skip(i + 1));
                assert(t.take(j) =~= text@.subrange(start as int, i as int));
            }
            let line = if i > start && text.get_char(i - 1) == '\r' {
                let cut = text.substring_char(start, i - 1);
                proof {
                    assert(cut@ =~= text@.subrange(start as int, i as int).drop_last());
                }
                cut
            } else {
                text.substring_char(start, i)
            };
            assert(line@ == strip_cr(t.take(j)));
            let ghost before = out@;
            out.push(line.to_owned());
            proof {
                assert(views(out@) =~= views(before).push(strip_cr(t.take(j))));
                assert(views(out@) + lines_of(text@.skip(i + 1)) =~= views(before) + lines_of(t));
            }
            start = i + 1;
        }
        i = i + 1;
    }
    if start < n {
        let ghost t = text@.skip(start as int);
        proof {
            lemma_lines_of_last(t);
        }
        let ghost before = out@;
        out.push(text.substring_char(start, n).to_owned());
        proof {
            assert(text@.subrange(start as int, n as int) =~= t);
            assert(views(out@) =~= views(before) + lines_of(t));
        }
    } else {
        proof {
            assert(text@.skip(start as int) =~= Seq::<char>::empty());
            assert(views(out@) =~= views(out@) + lines_of(text@.skip(start as int)));
        }
    }
    out
}

/// The lines joined with `'\n'` between two of them, none at the end.
pub fn join_with_newlines(lines: &Vec<String>) -> (r: String)
    ensures
        r@ == join_lines(views(lines@)),
{
    let mut out = String::new();
    let mut i: usize = 0;
    while i < lines.len()
        invariant
            i <= lines.len(),
            out@ == join_lines(views(lines@.take(i as int))),
        decreases lines.len() - i,
    {
        let ghost before = lines@.take(i as int);
        proof {
            assert(lines@.take(i as int + 1) =~= before.push(lines@[i as int]));
            assert(views(before.push(lines@[i as int])) =~= views(before).push(lines@[i as int]@));
        }
        if i > 0 {
            proof {
                reveal_strlit("\n");
                lemma_join_push(views(before), lines@[i as int]@);
            }
            out.append("\n");
            out.append(lines[i].as_str());
        } else {
            proof {
                assert(views(before.push(lines@[0])) =~= seq![lines@[0]@]);
            }
            out = lines[i].clone();
        }
        i = i + 1;
    }
    proof {
        assert(lines@.take(i as int) =~= lines@);
    }
    out
}

/// Turns a list of string-like values into a list of owned strings.
pub trait ToVecString {
    /// The text of each element.
    spec fn texts(&self) -> Seq<Seq<char>>;

    fn to_vec_string(&self) -> (r: Vec<String>)
        ensures
            views(r@) == self.texts(),
    ;
}

impl<'a> ToVecString for Vec<&'a str> {
    open spec fn texts(&self) -> Seq<Seq<char>> {
        self@.map_values(|s: &str| s@)
    }

    fn to_vec_string(&self) -> (r: Vec<String>) {
        let mut out: Vec<String> = Vec::new();
        let mut i: usize = 0;
        while i < self.len()
            invariant
                i <= self@.len(),
                views(out@) =~= self@.take(i as int).map_values(|s: &str| s@),
            decreases self@.len() - i,
        {
            let ghost before = out@;
            out.push(self[i].to_owned());
            proof {
                assert(self@.take(i as int + 1) =~= self@.take(i as int).push(self@[i as int]));
                assert(views(out@) =~= views(before).push(self@[i as int]@));
            }
            i = i + 1;
        }
        assert(self@.take(i as int) =~= self@);
        out
    }
}

impl ToVecString for Vec<String> {
    open spec fn texts(&self) -> Seq<Seq<char>> {
        views(self@)
    }

    fn to_vec_string(&self) -> (r: Vec<String>) {
        let mut out: Vec<String> = Vec::new();
        let mut i: usize = 0;
        while i < self.len()
            invariant
                i <= self@.len(),
                views(out@) =~= views(self@.take(i as int)),
            decreases self@.len() - i,
        {
            let ghost before = out@;
            out.push(self[i].clone());
            proof {
                assert(self@.take(i as int + 1) =~= self@.take(i as int).push(self@[i as int]));
                assert(views(out@) =~= views(before).push(self@[i as int]@));
            }
            i = i + 1;
        }
        assert(self@.take(i as int) =~= self@);
        out
    }
}

} // verus!

//! The file tree held in memory, with the primitive operations that the
//! whole-file functions are built from.
use vstd::prelude::*;

use crate::model::{is_within, FsView};
use crate::path::{ancestors, is_ancestor, is_ancestor_of, lemma_ancestor_transitive};

verus! {

/// `v` lists each file of `m` once, with its text.
spec fn files_match(v: Seq<(String, String)>, m: Map<Seq<char>, Seq<char>>) -> bool {
    &&& forall|i: int| 0 <= i < v.len() ==> m.contains_key(#[trigger] v[i].0@) && m[v[i].0@] == v[i].1@
    &&& forall|k: Seq<char>| m.contains_key(k) ==> exists|i: int| 0 <= i < v.len() && #[trigger] v[i].0@ == k
    &&& forall|i: int, j: int| 0 <= i < v.len() && 0 <= j < v.len() && #[trigger] v[i].0@ == #[trigger] v[j].0@ ==> i == j
}

/// `v` lists the directories of `s`.
spec fn dirs_match(v: Seq<String>, s: Set<Seq<char>>) -> bool {
    &&& forall|i: int| 0 <= i < v.len() ==> s.contains(#[trigger] v[i]@)
    &&& forall|k: Seq<char>| s.contains(k) ==> exists|i: int| 0 <= i < v.len() && #[trigger] v[i]@ == k
}

/// A file tree in memory: each file with its text, and each directory.
pub struct FileSystem {
    files: Vec<(String, String)>,
    dirs: Vec<String>,
    model: Ghost<FsView>,
}

impl View for FileSystem {
    type V = FsView;

    closed spec fn view(&self) -> FsView {
        self.model@
    }
}

impl FileSystem {
    /// The vectors hold exactly the files and directories of the view, each
    /// file once.
    spec fn consistent(&self) -> bool {
        &&& files_match(self.files@, self.model@.files)
        &&& dirs_match(self.dirs@, self.model@.dirs)
    }

    /// The tree is consistent with its view, and the view is well formed.
    pub closed spec fn inv(&self) -> bool {
        self.consistent() && self.model@.wf()
    }

    /// An empty tree.
    pub fn new() -> (r: Self)
        ensures
            r.inv(),
            r@.files == Map::<Seq<char>, Seq<char>>::empty(),
            r@.dirs == Set::<Seq<char>>::empty(),
    {
        FileSystem {
            files: Vec::new(),
            dirs: Vec::new(),
            model: Ghost(FsView { files: Map::empty(), dirs: Set::empty() }),
        }
    }

    fn find_file(&self, p: &str) -> (r: Option<usize>)
        requires
            self.consistent(),
        ensures
            match r {
                Some(i) => i < self.files@.len() && self.files@[i as int].0@ == p@,
                None => !self@.files.contains_key(p@),
            },
    {
        let wanted = p.to_owned();
        let mut i: usize = 0;
        while i < self.files.len()
            invariant
                self.consistent(),
                wanted@ == p@,
                i <= self.files@.len(),
                forall|j: int| 0 <= j < i ==> #[trigger] self.files@[j].0@ != p@,
            decreases self.files@.len() - i,
        {
            if self.files[i].0 == wanted {
                return Some(i);
            }
            i = i + 1;
        }
        None
    }

    /// Whether `p` names a file.
    pub fn is_file(&self, p: &str) -> (r: bool)
        requires
            self.inv(),
        ensures
            r == self@.files.contains_key(p@),
    {
        self.find_file(p).is_some()
    }

    /// Whether `p` names a directory.
    pub fn is_dir(&self, p: &str) -> (r: bool)
        requires
            self.inv(),
        ensures
            r == self@.dirs.contains(p@),
    {
        self.has_dir(p)
    }

    fn has_dir(&self, p: &str) -> (r: bool)
        requires
            self.consistent(),
        ensures
            r == self@.dirs.contains(p@),
    {
        let wanted = p.to_owned();
        let mut i: usize = 0;
        while i < self.dirs.len()
            invariant
                self.consistent(),
                wanted@ == p@,
                i <= self.dirs@.len(),
                forall|j: int| 0 <= j < i ==> #[trigger] self.dirs@[j]@ != p@,
            decreases self.dirs@.len() - i,
        {
            if self.dirs[i] == wanted {
                assert(self@.dirs.contains(self.dirs@[i as int]@));
                return true;
            }
            i = i + 1;
        }
        false
    }

    /// Whether `p` names a file or a directory.
    pub fn path_exists(&self, p: &str) -> (r: bool)
        requires
            self.inv(),
        ensures
            r == self@.names(p@),
    {
        self.is_file(p) || self.is_dir(p)
    }

    /// The text of the file `p`, if there is one.
    pub fn file_text(&self, p: &str) -> (r: Option<String>)
        requires
            self.inv(),
        ensures
            match r {
                Some(t) => self@.files.contains_key(p@) && t@ == self@.files[p@],
                None => !self@.files.contains_key(p@),
            },
    {
        match self.find_file(p) {
            Some(i) => Some(self.files[i].1.clone()),
            None => None,
        }
    }

    /// Whether some directory above `p` is a file.
    pub fn has_file_above(&self, p: &str) -> (r: bool)
        requires
            self.inv(),
        ensures
            r == self@.has_file_above(p@),
    {
        let mut i: usize = 0;
        while i < self.files.len()
            invariant
                self.inv(),
                i <= self.files@.len(),
                forall|j: int| 0 <= j < i ==> !is_ancestor(#[trigger] self.files@[j].0@, p@),
            decreases self.files@.len() - i,
        {
            if is_ancestor_of(self.files[i].0.as_str(), p) {
                proof {
                    assert(self@.files.contains_key(self.files@[i as int].0@));
                }
                return true;
            }
            i = i + 1;
        }
        proof {
            assert forall|a: Seq<char>| #[trigger] is_ancestor(a, p@) implies !self@.files.contains_key(a) by {
                if self@.files.contains_key(a) {
                    let j = choose|j: int| 0 <= j < self.files@.len() && #[trigger] self.files@[j].0@ == a;
                }
            }
        }
        false
    }
}

impl FileSystem {
    /// Creates every directory above `p` that is missing.
    pub(crate) fn create_ancestors(&mut self, p: &str)
        requires
            old(self).inv(),
            !old(self)@.has_file_above(p@),
        ensures
            final(self).inv(),
            final(self)@.files == old(self)@.files,
            final(self)@.dirs == old(self)@.dirs.union(Set::new(|a: Seq<char>| is_ancestor(a, p@))),
    {
        let list = ancestors(p);
        let ghost start = self@;
        let mut k: usize = 0;
        while k < list.len()
            invariant
                self.consistent(),
                self@.files == start.files,
                k <= list@.len(),
                forall|m: int| 0 <= m < list@.len() ==> is_ancestor(#[trigger] list@[m]@, p@),
                self@.dirs == start.dirs.union(
                    Set::new(|a: Seq<char>| exists|m: int| 0 <= m < k && #[trigger] list@[m]@ == a),
                ),
            decreases list@.len() - k,
        {
            let ghost before = self@.dirs;
            let ghost prev = self.dirs@;
            proof {
                assert forall|i: int| 0 <= i < prev.len() implies before.contains(#[trigger] prev[i]@) by {
                    assert(self.dirs@[i]@ == prev[i]@);
                }
                assert forall|d: Seq<char>| before.contains(d) implies exists|i: int|
                    0 <= i < prev.len() && #[trigger] prev[i]@ == d by {
                    let i = choose|i: int| 0 <= i < self.dirs@.len() && #[trigger] self.dirs@[i]@ == d;
                    assert(prev[i]@ == d);
                }
            }
            if !self.has_dir(list[k].as_str()) {
                self.dirs.push(list[k].clone());
                proof {
                    assert(self.dirs@[self.dirs@.len() - 1]@ == list@[k as int]@);
                }
            }
            self.model = Ghost(FsView { files: self@.files, dirs: before.insert(list@[k as int]@) });
            proof {
                assert forall|i: int| 0 <= i < self.dirs@.len() implies self@.dirs.contains(#[trigger] self.dirs@[i]@) by {
                    if i < prev.len() {
                        assert(self.dirs@[i]@ == prev[i]@);
                        assert(before.contains(prev[i]@));
                    }
                }
                assert forall|d: Seq<char>| self@.dirs.contains(d) implies exists|i: int|
                    0 <= i < self.dirs@.len() && #[trigger] self.dirs@[i]@ == d by {
                    if d != list@[k as int]@ {
                        assert(before.contains(d));
                        let i = choose|i: int| 0 <= i < prev.len() && prev[i]@ == d;
                        assert(self.dirs@[i]@ == d);
                    } else if before.contains(d) {
                        let i = choose|i: int| 0 <= i < prev.len() && prev[i]@ == d;
                        assert(self.dirs@[i]@ == d);
                    } else {
                        assert(self.dirs@[self.dirs@.len() - 1]@ == d);
                    }
                }
                assert(self@.dirs =~= start.dirs.union(
                    Set::new(|a: Seq<char>| exists|m: int| 0 <= m < k + 1 && #[trigger] list@[m]@ == a),
                ));
            }
            k = k + 1;
        }
        proof {
            assert(self@.dirs =~= start.dirs.union(Set::new(|a: Seq<char>| is_ancestor(a, p@))));
            let v = self@;
            assert forall|d: Seq<char>| v.files.contains_key(d) implies !v.dirs.contains(d) by {
                if is_ancestor(d, p@) {
                    assert(start.has_file_above(p@));
                }
            }
            assert forall|a: Seq<char>, d: Seq<char>|
                (v.files.contains_key(d) || v.dirs.contains(d)) && #[trigger] is_ancestor(a, d)
                    implies v.dirs.contains(a) by {
                if !start.files.contains_key(d) && !start.dirs.contains(d) {
                    lemma_ancestor_transitive(a, d, p@);
                }
            }
        }
    }

    /// Makes the file `p` hold `t`, in a directory that exists.
    pub(crate) fn put_file(&mut self, p: &str, t: String)
        requires
            old(self).inv(),
            !old(self)@.dirs.contains(p@),
            forall|a: Seq<char>| #[trigger] is_ancestor(a, p@) ==> old(self)@.dirs.contains(a),
        ensures
            final(self).inv(),
            final(self)@.files == old(self)@.files.insert(p@, t@),
            final(self)@.dirs == old(self)@.dirs,
    {
        let ghost start = self@;
        let ghost tv = t@;
        proof {
            assert(start.wf());
        }
        match self.find_file(p) {
            Some(i) => {
                self.files.set(i, (p.to_owned(), t));
                self.model = Ghost(FsView { files: start.files.insert(p@, tv), dirs: start.dirs });
                proof {
                    assert forall|j: int| 0 <= j < self.files@.len() implies self@.files.contains_key(
                        #[trigger] self.files@[j].0@,
                    ) && self@.files[self.files@[j].0@] == self.files@[j].1@ by {
                        if j != i {
                            assert(old(self).files@[j].0@ != old(self).files@[i as int].0@);
                        }
                    }
                    assert forall|k: Seq<char>| self@.files.contains_key(k) implies exists|j: int|
                        0 <= j < self.files@.len() && #[trigger] self.files@[j].0@ == k by {
                        if k != p@ {
                            let j = choose|j: int| 0 <= j < old(self).files@.len() && #[trigger] old(self).files@[j].0@ == k;
                            assert(self.files@[j].0@ == k);
                        } else {
                            assert(self.files@[i as int].0@ == k);
                        }
                    }
                    assert forall|a: int, b: int|
                        0 <= a < self.files@.len() && 0 <= b < self.files@.len() && #[trigger] self.files@[a].0@
                            == #[trigger] self.files@[b].0@ implies a == b by {
                        if a != i && b != i {
                            assert(old(self).files@[a].0@ == old(self).files@[b].0@);
                        } else if a != i {
                            assert(old(self).files@[a].0@ != old(self).files@[i as int].0@);
                        } else if b != i {
                            assert(old(self).files@[b].0@ != old(self).files@[i as int].0@);
                        }
                    }
                }
            },
            None => {
                self.files.push((p.to_owned(), t));
                self.model = Ghost(FsView { files: start.files.insert(p@, tv), dirs: start.dirs });
                proof {
                    let n = old(self).files@.len() as int;
                    assert(self.files@[n].0@ == p@);
                    assert forall|j: int| 0 <= j < self.files@.len() implies self@.files.contains_key(
                        #[trigger] self.files@[j].0@,
                    ) && self@.files[self.files@[j].0@] == self.files@[j].1@ by {
                        if j != n {
                            assert(old(self).files@[j].0@ == self.files@[j].0@);
                            assert(start.files.contains_key(self.files@[j].0@));
                        }
                    }
                    assert forall|k: Seq<char>| self@.files.contains_key(k) implies exists|j: int|
                        0 <= j < self.files@.len() && #[trigger] self.files@[j].0@ == k by {
                        if k != p@ {
                            let j = choose|j: int| 0 <= j < old(self).files@.len() && #[trigger] old(self).files@[j].0@ == k;
                            assert(self.files@[j].0@ == k);
                        }
                    }
                    assert forall|a: int, b: int|
                        0 <= a < self.files@.len() && 0 <= b < self.files@.len() && #[trigger] self.files@[a].0@
                            == #[trigger] self.files@[b].0@ implies a == b by {
                        if a != n && b != n {
                            assert(old(self).files@[a].0@ == old(self).files@[b].0@);
                        } else if a != n {
                            assert(start.files.contains_key(old(self).files@[a].0@));
                        } else if b != n {
                            assert(start.files.contains_key(old(self).files@[b].0@));
                        }
                    }
                }
            },
        }
        proof {
            let v = self@;
            assert(v.files =~= start.files.insert(p@, tv));
            assert forall|d: Seq<char>| v.files.contains_key(d) implies !v.dirs.contains(d) by {
                if d != p@ {
                    assert(start.files.contains_key(d));
                }
            }
            assert forall|a: Seq<char>, d: Seq<char>|
                (v.files.contains_key(d) || v.dirs.contains(d)) && #[trigger] is_ancestor(a, d)
                    implies v.dirs.contains(a) by {
                if d != p@ {
                    assert(start.files.contains_key(d) || start.dirs.contains(d));
                }
            }
            assert(v.wf());
            assert forall|i: int| 0 <= i < self.dirs@.len() implies v.dirs.contains(#[trigger] self.dirs@[i]@) by {
                assert(self.dirs@[i]@ == old(self).dirs@[i]@);
            }
            assert forall|d: Seq<char>| v.dirs.contains(d) implies exists|i: int|
                0 <= i < self.dirs@.len() && #[trigger] self.dirs@[i]@ == d by {
                let i = choose|i: int| 0 <= i < old(self).dirs@.len() && #[trigger] old(self).dirs@[i]@ == d;
                assert(self.dirs@[i]@ == d);
            }
        }
    }

    /// Takes away `p` and everything under it.
    pub(crate) fn remove_tree(&mut self, p: &str)
        requires
            old(self).inv(),
        ensures
            final(self).inv(),
            final(self)@ == old(self)@.without(p@),
    {
        let ghost start = self@;
        let ghost goal = start.without(p@);
        let wanted = p.to_owned();
        let mut kept: Vec<(String, String)> = Vec::new();
        let mut i: usize = 0;
        while i < self.files.len()
            invariant
                self.consistent(),
                self@ == start,
                goal == start.without(p@),
                wanted@ == p@,
                i <= self.files@.len(),
                forall|j: int|
                    0 <= j < kept@.len() ==> goal.files.contains_key(#[trigger] kept@[j].0@)
                        && goal.files[kept@[j].0@] == kept@[j].1@,
                forall|j: int| #![trigger kept@[j]] 0 <= j < kept@.len() ==> exists|m: int| 0 <= m < i && #[trigger] self.files@[m].0@ == kept@[j].0@,
                forall|a: int, b: int|
                    0 <= a < kept@.len() && 0 <= b < kept@.len() && #[trigger] kept@[a].0@ == #[trigger] kept@[b].0@
                        ==> a == b,
                forall|m: int|
                    0 <= m < i && !is_within(#[trigger] self.files@[m].0@, p@) ==> exists|j: int|
                        0 <= j < kept@.len() && kept@[j].0@ == self.files@[m].0@,
            decreases self.files@.len() - i,
        {
            let k = self.files[i].0.as_str();
            if !(self.files[i].0 == wanted || is_ancestor_of(p, k)) {
                let ghost before = kept@;
                kept.push((self.files[i].0.clone(), self.files[i].1.clone()));
                proof {
                    let n = before.len() as int;
                    let key = self.files@[i as int].0@;
                    assert(kept@[n] == self.files@[i as int]);
                    assert(!is_within(key, p@));
                    assert(start.files.contains_key(key));
                    assert(goal.files.contains_key(key));
                    assert(goal.files[key] == start.files[key]);
                    assert forall|a: int, b: int|
                        0 <= a < kept@.len() && 0 <= b < kept@.len() && #[trigger] kept@[a].0@
                            == #[trigger] kept@[b].0@ implies a == b by {
                        if a < n && b == n {
                            let m = choose|m: int| 0 <= m < i && #[trigger] self.files@[m].0@ == before[a].0@;
                        } else if b < n && a == n {
                            let m = choose|m: int| 0 <= m < i && #[trigger] self.files@[m].0@ == before[b].0@;
                        }
                    }
                    assert forall|j: int| #![trigger kept@[j]] 0 <= j < kept@.len() implies exists|m: int|
                        0 <= m < i + 1 && #[trigger] self.files@[m].0@ == kept@[j].0@ by {
                        if j < n {
                            let m = choose|m: int| 0 <= m < i && #[trigger] self.files@[m].0@ == before[j].0@;
                        } else {
                            assert(self.files@[i as int].0@ == kept@[j].0@);
                        }
                    }
                    assert forall|m: int|
                        0 <= m < i + 1 && !is_within(#[trigger] self.files@[m].0@, p@) implies exists|j: int|
                            0 <= j < kept@.len() && kept@[j].0@ == self.files@[m].0@ by {
                        if m < i {
                            let j = choose|j: int| 0 <= j < before.len() && before[j].0@ == self.files@[m].0@;
                            assert(kept@[j] == before[j]);
                        } else {
                            assert(kept@[n].0@ == self.files@[m].0@);
                        }
                    }
                }
            }
            i = i + 1;
        }
        let mut kept_dirs: Vec<String> = Vec::new();
        let mut i: usize = 0;
        while i < self.dirs.len()
            invariant
                self.consistent(),
                self@ == start,
                goal == start.without(p@),
                wanted@ == p@,
                i <= self.dirs@.len(),
                forall|j: int| 0 <= j < kept_dirs@.len() ==> goal.dirs.contains(#[trigger] kept_dirs@[j]@),
                forall|m: int|
                    0 <= m < i && !is_within(#[trigger] self.dirs@[m]@, p@) ==> exists|j: int|
                        0 <= j < kept_dirs@.len() && kept_dirs@[j]@ == self.dirs@[m]@,
            decreases self.dirs@.len() - i,
        {
            let k = self.dirs[i].as_str();
            if !(self.dirs[i] == wanted || is_ancestor_of(p, k)) {
                let ghost before = kept_dirs@;
                kept_dirs.push(self.dirs[i].clone());
                proof {
                    let n = before.len() as int;
                    assert(kept_dirs@[n] == self.dirs@[i as int]);
                    assert(!is_within(self.dirs@[i as int]@, p@));
                    assert(start.dirs.contains(self.dirs@[i as int]@));
                    assert(goal.dirs.contains(self.dirs@[i as int]@));
                    assert forall|m: int|
                        0 <= m < i + 1 && !is_within(#[trigger] self.dirs@[m]@, p@) implies exists|j: int|
                            0 <= j < kept_dirs@.len() && kept_dirs@[j]@ == self.dirs@[m]@ by {
                        if m < i {
                            let j = choose|j: int| 0 <= j < before.len() && before[j]@ == self.dirs@[m]@;
                            assert(kept_dirs@[j] == before[j]);
                        } else {
                            assert(kept_dirs@[n]@ == self.dirs@[m]@);
                        }
                    }
                }
            }
            i = i + 1;
        }
        proof {
            assert forall|k: Seq<char>| goal.files.contains_key(k) implies exists|j: int|
                0 <= j < kept@.len() && #[trigger] kept@[j].0@ == k by {
                let m = choose|m: int| 0 <= m < self.files@.len() && #[trigger] self.files@[m].0@ == k;
            }
            assert forall|k: Seq<char>| goal.dirs.contains(k) implies exists|j: int|
                0 <= j < kept_dirs@.len() && #[trigger] kept_dirs@[j]@ == k by {
                let m = choose|m: int| 0 <= m < self.dirs@.len() && #[trigger] self.dirs@[m]@ == k;
            }
            assert forall|d: Seq<char>| goal.files.contains_key(d) implies !goal.dirs.contains(d) by {
                assert(start.files.contains_key(d));
            }
            assert forall|a: Seq<char>, d: Seq<char>|
                (goal.files.contains_key(d) || goal.dirs.contains(d)) && #[trigger] is_ancestor(a, d)
                    implies goal.dirs.contains(a) by {
                assert(start.files.contains_key(d) || start.dirs.contains(d));
                assert(start.dirs.contains(a));
                if is_within(a, p@) {
                    if a != p@ {
                        lemma_ancestor_transitive(p@, a, d);
                    }
                }
            }
        }
        self.files = kept;
        self.dirs = kept_dirs;
        self.model = Ghost(goal);
    }
}

} // verus!

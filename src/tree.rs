//! A tree of files under the storage root, as a map from path to content.

use vstd::prelude::*;
use vstd::string::StrSliceExecFns;

verus! {

/// `p` is a prefix of `s`.
pub open spec fn is_prefix(p: Seq<char>, s: Seq<char>) -> bool {
    p.len() <= s.len() && s.subrange(0, p.len() as int) == p
}

/// What follows `p` in the paths of `m` that start with it.
pub open spec fn names_under(m: Map<Seq<char>, Seq<u8>>, p: Seq<char>) -> Set<Seq<char>> {
    Set::new(|n: Seq<char>| m.contains_key(p + n))
}

/// `v` lists the members of `s`, each once.
pub open spec fn lists_exactly(v: Seq<String>, s: Set<Seq<char>>) -> bool {
    &&& forall|a: int| 0 <= a < v.len() ==> s.contains(#[trigger] v[a]@)
    &&& forall|n: Seq<char>| #[trigger] s.contains(n) ==> exists|a: int| 0 <= a < v.len() && #[trigger] v[a]@ == n
    &&& forall|a: int, b: int| 0 <= a < b < v.len() ==> v[a]@ != v[b]@
}

/// What follows `prefix` in `s`, when `s` starts with it.
pub fn strip_prefix(s: &str, prefix: &str) -> (r: Option<String>)
    ensures
        match r {
            Some(rest) => is_prefix(prefix@, s@) && s@ == prefix@ + rest@,
            None => !is_prefix(prefix@, s@),
        },
{
    let plen = prefix.unicode_len();
    let slen = s.unicode_len();
    if plen > slen {
        return None;
    }
    let mut k: usize = 0;
    while k < plen
        invariant
            plen == prefix@.len(),
            slen == s@.len(),
            plen <= slen,
            k <= plen,
            forall|j: int| 0 <= j < k ==> s@[j] == prefix@[j],
        decreases plen - k,
    {
        if s.get_char(k) != prefix.get_char(k) {
            assert(s@.subrange(0, plen as int)[k as int] != prefix@[k as int]);
            return None;
        }
        k = k + 1;
    }
    let rest = s.substring_char(plen, slen).to_owned();
    assert(s@.subrange(0, plen as int) =~= prefix@);
    assert(s@ =~= prefix@ + rest@);
    Some(rest)
}

/// Files by path. Each path appears once.
pub struct FileTree {
    entries: Vec<(String, Vec<u8>)>,
    contents: Ghost<Map<Seq<char>, Seq<u8>>>,
}

impl View for FileTree {
    type V = Map<Seq<char>, Seq<u8>>;

    closed spec fn view(&self) -> Map<Seq<char>, Seq<u8>> {
        self.contents@
    }
}

impl FileTree {
    /// Paths are unique and the entries hold exactly the files of the view.
    pub closed spec fn wf(&self) -> bool {
        &&& forall|i: int, j: int|
            0 <= i < j < self.entries@.len() ==> self.entries@[i].0@ != self.entries@[j].0@
        &&& forall|i: int|
            0 <= i < self.entries@.len() ==> {
                &&& self.contents@.contains_key(#[trigger] self.entries@[i].0@)
                &&& self.contents@[self.entries@[i].0@] == self.entries@[i].1@
            }
        &&& forall|k: Seq<char>|
            self.contents@.contains_key(k) ==> exists|i: int|
                0 <= i < self.entries@.len() && #[trigger] self.entries@[i].0@ == k
    }

    /// An empty tree.
    pub fn new() -> (r: FileTree)
        ensures
            r.wf(),
            r@ == Map::<Seq<char>, Seq<u8>>::empty(),
    {
        FileTree { entries: Vec::new(), contents: Ghost(Map::empty()) }
    }

    /// Index of the entry for `path`, if any.
    fn find(&self, path: &str) -> (r: Option<usize>)
        requires
            self.wf(),
        ensures
            match r {
                Some(i) => i < self.entries@.len() && self.entries@[i as int].0@ == path@,
                None => !self@.contains_key(path@),
            },
    {
        let target = path.to_owned();
        let mut i: usize = 0;
        while i < self.entries.len()
            invariant
                self.wf(),
                i <= self.entries@.len(),
                target@ == path@,
                forall|j: int| 0 <= j < i ==> self.entries@[j].0@ != path@,
            decreases self.entries@.len() - i,
        {
            if self.entries[i].0 == target {
                return Some(i);
            }
            i = i + 1;
        }
        None
    }

    /// Whether a file stands at `path`.
    pub fn contains(&self, path: &str) -> (r: bool)
        requires
            self.wf(),
        ensures
            r == self@.contains_key(path@),
    {
        self.find(path).is_some()
    }

    /// The content of the file at `path`, if there is one.
    pub fn get(&self, path: &str) -> (r: Option<&Vec<u8>>)
        requires
            self.wf(),
        ensures
            match r {
                Some(c) => self@.contains_key(path@) && c@ == self@[path@],
                None => !self@.contains_key(path@),
            },
    {
        match self.find(path) {
            Some(i) => Some(&self.entries[i].1),
            None => None,
        }
    }

    /// Writes `content` at `path`, replacing what stood there.
    pub fn insert(&mut self, path: String, content: Vec<u8>)
        requires
            old(self).wf(),
        ensures
            final(self).wf(),
            final(self)@ == old(self)@.insert(path@, content@),
    {
        let ghost key = path@;
        let ghost c = content@;
        match self.find(path.as_str()) {
            Some(i) => {
                self.entries.set(i, (path, content));
                assert(self.entries@[i as int].0@ == key);
            },
            None => {
                self.entries.push((path, content));
            },
        }
        self.contents = Ghost(self.contents@.insert(key, c));
        assert forall|k: Seq<char>| self.contents@.contains_key(k) implies exists|i: int|
            0 <= i < self.entries@.len() && #[trigger] self.entries@[i].0@ == k by {
            if k != key {
                let j = choose|j: int| 0 <= j < old(self).entries@.len() && #[trigger] old(self).entries@[j].0@ == k;
                assert(self.entries@[j].0@ == k);
            } else {
                if self.entries@.len() > old(self).entries@.len() {
                    assert(self.entries@[old(self).entries@.len() as int].0@ == k);
                }
            }
        }
    }

    /// Adds `data` at the end of the file at `path`, which must exist.
    pub fn append(&mut self, path: &str, data: &[u8])
        requires
            old(self).wf(),
            old(self)@.contains_key(path@),
        ensures
            final(self).wf(),
            final(self)@ == old(self)@.insert(path@, old(self)@[path@] + data@),
    {
        let ghost c = self@[path@] + data@;
        let i = self.find(path).unwrap();
        let (name, mut content) = self.entries.remove(i);
        content.extend_from_slice(data);
        let ghost entry = (name, content);
        self.entries.insert(i, (name, content));
        assert(self.entries@ =~= old(self).entries@.update(i as int, entry));
        assert(self.entries@[i as int].1@ == c);
        assert(self.entries@[i as int].0@ == path@);
        self.contents = Ghost(self.contents@.insert(path@, c));
        assert forall|k: Seq<char>| self.contents@.contains_key(k) implies exists|j: int|
            0 <= j < self.entries@.len() && #[trigger] self.entries@[j].0@ == k by {
            let j = choose|j: int| 0 <= j < old(self).entries@.len() && #[trigger] old(self).entries@[j].0@ == k;
            assert(self.entries@[j].0@ == k);
        }
    }

    /// Removes the file at `path`, if there is one, and hands back its content.
    pub fn remove(&mut self, path: &str) -> (r: Option<Vec<u8>>)
        requires
            old(self).wf(),
        ensures
            final(self).wf(),
            final(self)@ == old(self)@.remove(path@),
            match r {
                Some(c) => old(self)@.contains_key(path@) && c@ == old(self)@[path@],
                None => !old(self)@.contains_key(path@),
            },
    {
        match self.find(path) {
            Some(i) => {
                let (_name, content) = self.entries.remove(i);
                self.contents = Ghost(self.contents@.remove(path@));
                assert forall|k: Seq<char>| self.contents@.contains_key(k) implies exists|j: int|
                    0 <= j < self.entries@.len() && #[trigger] self.entries@[j].0@ == k by {
                    let j = choose|j: int| 0 <= j < old(self).entries@.len() && #[trigger] old(self).entries@[j].0@ == k;
                    if j < i {
                        assert(self.entries@[j].0@ == k);
                    } else {
                        assert(self.entries@[j - 1].0@ == k);
                    }
                }
                Some(content)
            },
            None => {
                assert(self@ =~= old(self)@.remove(path@));
                None
            },
        }
    }

    /// What follows `prefix` in each path that starts with it, each once.
    pub fn names_under(&self, prefix: &str) -> (r: Vec<String>)
        requires
            self.wf(),
        ensures
            lists_exactly(r@, names_under(self@, prefix@)),
    {
        let mut r: Vec<String> = Vec::new();
        let ghost mut src: Seq<int> = Seq::empty();
        let mut i: usize = 0;
        while i < self.entries.len()
            invariant
                self.wf(),
                i <= self.entries@.len(),
                src.len() == r@.len(),
                forall|a: int| 0 <= a < r@.len() ==> 0 <= #[trigger] src[a] < i,
                forall|a: int| 0 <= a < r@.len() ==> prefix@ + #[trigger] r@[a]@ == self.entries@[src[a]].0@,
                forall|a: int, b: int| 0 <= a < b < r@.len() ==> src[a] < src[b],
                forall|j: int| 0 <= j < i && #[trigger] is_prefix(prefix@, self.entries@[j].0@) ==> exists|a: int|
                    0 <= a < r@.len() && prefix@ + #[trigger] r@[a]@ == self.entries@[j].0@,
            decreases self.entries@.len() - i,
        {
            match strip_prefix(self.entries[i].0.as_str(), prefix) {
                Some(rest) => {
                    let ghost r0 = r@;
                    r.push(rest);
                    proof {
                        src = src.push(i as int);
                        assert(prefix@ + r@[r@.len() - 1]@ == self.entries@[i as int].0@);
                        assert forall|j: int| 0 <= j < i + 1 && #[trigger] is_prefix(prefix@, self.entries@[j].0@) implies exists|a: int|
                            0 <= a < r@.len() && prefix@ + #[trigger] r@[a]@ == self.entries@[j].0@ by {
                            if j < i {
                                let a = choose|a: int| 0 <= a < r0.len() && prefix@ + #[trigger] r0[a]@ == self.entries@[j].0@;
                                assert(r@[a] == r0[a]);
                            } else {
                                assert(prefix@ + r@[r@.len() - 1]@ == self.entries@[j].0@);
                            }
                        }
                    }
                },
                None => {},
            }
            i = i + 1;
        }
        assert forall|a: int| 0 <= a < r@.len() implies names_under(self@, prefix@).contains(#[trigger] r@[a]@) by {
            assert(self@.contains_key(self.entries@[src[a]].0@));
        }
        assert forall|n: Seq<char>| #[trigger] names_under(self@, prefix@).contains(n) implies exists|a: int|
            0 <= a < r@.len() && #[trigger] r@[a]@ == n by {
            let k = prefix@ + n;
            let j = choose|j: int| 0 <= j < self.entries@.len() && #[trigger] self.entries@[j].0@ == k;
            assert(k.subrange(0, prefix@.len() as int) =~= prefix@);
            assert(is_prefix(prefix@, self.entries@[j].0@));
            let a = choose|a: int| 0 <= a < r@.len() && prefix@ + #[trigger] r@[a]@ == self.entries@[j].0@;
            assert((prefix@ + r@[a]@).subrange(prefix@.len() as int, k.len() as int) =~= r@[a]@);
            assert(k.subrange(prefix@.len() as int, k.len() as int) =~= n);
        }
        assert forall|a: int, b: int| 0 <= a < b < r@.len() implies r@[a]@ != r@[b]@ by {
            if r@[a]@ == r@[b]@ {
                assert(self.entries@[src[a]].0@ == self.entries@[src[b]].0@);
            }
        }
        r
    }
}

} // verus!

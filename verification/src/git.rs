//! Git status of listed paths: the statuses a repository reports, summarised
//! onto directories, and looked up for a listed path.
use vstd::prelude::*;
use crate::path::{file_name, file_name_of, join, join_of, named_components, named_parts};
use crate::text::{text_eq, texts};

verus! {

/// The status shown in the Git column.
#[derive(Clone, Copy, PartialEq, Eq, Structural, Debug)]
pub enum GitStatus {
    Modified,
    Added,
    Deleted,
    Untracked,
    Ignored,
}

/// A path compared as `Path` compares: absolute or not, and its named
/// components.
pub type PathKey = (bool, Seq<Seq<char>>);

/// Whether a path text is absolute.
pub open spec fn is_absolute(p: Seq<char>) -> bool {
    p.len() > 0 && p[0] == '/'
}

/// The comparison key of a path text.
pub open spec fn path_key(p: Seq<char>) -> PathKey {
    (is_absolute(p), named_parts(p))
}

/// A path key held by the library.
pub struct Key {
    pub absolute: bool,
    pub parts: Vec<String>,
}

impl Key {
    pub open spec fn view_key(&self) -> PathKey {
        (self.absolute, texts(self.parts@))
    }
}

/// The key of a path text.
pub fn key_of(p: &str) -> (r: Key)
    ensures
        r.view_key() == path_key(p@),
{
    let parts = named_components(p);
    let absolute = p.unicode_len() > 0 && p.get_char(0) == '/';
    assert(texts(parts@) =~= named_parts(p@));
    Key { absolute, parts }
}

/// Key equality.
fn key_eq(a: &Key, b: &Key) -> (r: bool)
    ensures
        r == (a.view_key() == b.view_key()),
{
    if a.absolute != b.absolute {
        return false;
    }
    let n = a.parts.len();
    if n != b.parts.len() {
        assert(texts(a.parts@).len() != texts(b.parts@).len());
        return false;
    }
    let mut i: usize = 0;
    while i < n
        invariant
            n == a.parts@.len(),
            n == b.parts@.len(),
            i <= n,
            forall|j: int| 0 <= j < i ==> a.parts@[j]@ == b.parts@[j]@,
        decreases n - i,
    {
        if !text_eq(a.parts[i].as_str(), b.parts[i].as_str()) {
            assert(texts(a.parts@)[i as int] != texts(b.parts@)[i as int]);
            return false;
        }
        i = i + 1;
    }
    assert(texts(a.parts@) =~= texts(b.parts@));
    true
}

/// `a` is `k` with its last `drop` components removed.
fn key_prefix(k: &Key, len: usize) -> (r: Key)
    requires
        len <= k.parts@.len(),
    ensures
        r.view_key() == (k.view_key().0, k.view_key().1.take(len as int)),
{
    let mut parts: Vec<String> = Vec::new();
    let mut i: usize = 0;
    while i < len
        invariant
            len <= k.parts@.len(),
            i <= len,
            texts(parts@) == texts(k.parts@).take(i as int),
        decreases len - i,
    {
        let ghost prev = parts@;
        let c = k.parts[i].clone();
        parts.push(c);
        assert(parts@ == prev.push(c));
        assert(texts(parts@) =~= texts(prev).push(c@));
        i = i + 1;
        assert(texts(parts@) =~= texts(k.parts@).take(i as int));
    }
    Key { absolute: k.absolute, parts }
}

/// The map of the first `n` pairs, later pairs replacing earlier ones.
pub open spec fn map_upto(ks: Seq<PathKey>, vs: Seq<GitStatus>, n: int) -> Map<PathKey, GitStatus>
    decreases n,
{
    if n <= 0 {
        Map::empty()
    } else {
        map_upto(ks, vs, n - 1).insert(ks[n - 1], vs[n - 1])
    }
}

/// Statuses by path, as inserted (a later insert of the same path replaces).
pub struct StatusMap {
    keys: Vec<Key>,
    vals: Vec<GitStatus>,
}

/// The key views of a list of keys.
pub open spec fn key_views(ks: Seq<Key>) -> Seq<PathKey> {
    ks.map_values(|k: Key| k.view_key())
}

impl StatusMap {
    /// Well-formedness: one status per key.
    pub closed spec fn wf(self) -> bool {
        self.keys@.len() == self.vals@.len()
    }

    /// The statuses by path key.
    pub closed spec fn view_map(self) -> Map<PathKey, GitStatus> {
        map_upto(key_views(self.keys@), self.vals@, self.keys@.len() as int)
    }

    pub fn new() -> (r: Self)
        ensures
            r.wf(),
            r.view_map() == Map::<PathKey, GitStatus>::empty(),
    {
        StatusMap { keys: Vec::new(), vals: Vec::new() }
    }

    fn insert_key(&mut self, k: Key, v: GitStatus)
        requires
            old(self).wf(),
        ensures
            final(self).wf(),
            final(self).view_map() == old(self).view_map().insert(k.view_key(), v),
    {
        let ghost old_keys = key_views(self.keys@);
        let ghost kv = k.view_key();
        self.keys.push(k);
        self.vals.push(v);
        proof {
            let n = old_keys.len() as int;
            assert(key_views(self.keys@) =~= old_keys.push(kv));
            lemma_map_upto_ext(old_keys, old(self).vals@, key_views(self.keys@), self.vals@, n);
        }
    }

    /// Records the status of a path (replacing an earlier one).
    pub fn insert(&mut self, path: &str, v: GitStatus)
        requires
            old(self).wf(),
        ensures
            final(self).wf(),
            final(self).view_map() == old(self).view_map().insert(path_key(path@), v),
    {
        let k = key_of(path);
        self.insert_key(k, v);
    }

    fn get_key(&self, k: &Key) -> (r: Option<GitStatus>)
        requires
            self.wf(),
        ensures
            match r {
                Some(s) => self.view_map().contains_key(k.view_key()) && self.view_map()[k.view_key()] == s,
                None => !self.view_map().contains_key(k.view_key()),
            },
    {
        let ghost ks = key_views(self.keys@);
        let ghost vs = self.vals@;
        let n = self.keys.len();
        let mut i: usize = n;
        while i > 0
            invariant
                n == self.keys@.len(),
                n == vs.len(),
                ks == key_views(self.keys@),
                vs == self.vals@,
                i <= n,
                forall|j: int| i <= j < n ==> ks[j] != k.view_key(),
            decreases i,
        {
            if key_eq(&self.keys[i - 1], k) {
                proof {
                    lemma_map_upto_last(ks, vs, n as int, (i - 1) as int, k.view_key());
                }
                return Some(self.vals[i - 1]);
            }
            i = i - 1;
        }
        proof {
            lemma_map_upto_absent(ks, vs, n as int, k.view_key());
        }
        None
    }

    /// The status recorded for a path, if any.
    pub fn get(&self, path: &str) -> (r: Option<GitStatus>)
        requires
            self.wf(),
        ensures
            r == (if self.view_map().contains_key(path_key(path@)) {
                Some(self.view_map()[path_key(path@)])
            } else {
                None
            }),
    {
        let k = key_of(path);
        self.get_key(&k)
    }
}

proof fn lemma_map_upto_ext(ks: Seq<PathKey>, vs: Seq<GitStatus>, ks2: Seq<PathKey>, vs2: Seq<GitStatus>, n: int)
    requires
        0 <= n <= ks.len(),
        n <= ks2.len(),
        n <= vs.len(),
        n <= vs2.len(),
        forall|j: int| 0 <= j < n ==> ks[j] == ks2[j] && vs[j] == vs2[j],
    ensures
        map_upto(ks, vs, n) == map_upto(ks2, vs2, n),
    decreases n,
{
    if n > 0 {
        lemma_map_upto_ext(ks, vs, ks2, vs2, n - 1);
    }
}

proof fn lemma_map_upto_last(ks: Seq<PathKey>, vs: Seq<GitStatus>, n: int, i: int, k: PathKey)
    requires
        0 <= i < n <= ks.len(),
        n <= vs.len(),
        ks[i] == k,
        forall|j: int| i < j < n ==> ks[j] != k,
    ensures
        map_upto(ks, vs, n).contains_key(k),
        map_upto(ks, vs, n)[k] == vs[i],
    decreases n,
{
    if n - 1 > i {
        lemma_map_upto_last(ks, vs, n - 1, i, k);
    }
}

proof fn lemma_map_upto_absent(ks: Seq<PathKey>, vs: Seq<GitStatus>, n: int, k: PathKey)
    requires
        0 <= n <= ks.len(),
        n <= vs.len(),
        forall|j: int| 0 <= j < n ==> ks[j] != k,
    ensures
        !map_upto(ks, vs, n).contains_key(k),
    decreases n,
{
    if n > 0 {
        lemma_map_upto_absent(ks, vs, n - 1, k);
    }
}

/// `a` is a proper ancestor of `p` at or below the work directory `w`.
pub open spec fn ancestor_within(a: PathKey, p: PathKey, w: PathKey) -> bool {
    &&& a.0 == p.0
    &&& a.0 == w.0
    &&& a.1.len() < p.1.len()
    &&& a.1 == p.1.take(a.1.len() as int)
    &&& w.1.len() <= a.1.len()
    &&& w.1 == a.1.take(w.1.len() as int)
}

/// The status a directory gets from the statuses below it: Modified when a
/// change other than an untracked file lies below it, else Untracked when an
/// untracked file does; ignored files do not count.
pub open spec fn dir_summary(m: Map<PathKey, GitStatus>, w: PathKey, a: PathKey) -> Option<GitStatus> {
    if exists|p: PathKey|
        #![trigger m[p]]
        m.contains_key(p) && m[p] != GitStatus::Ignored && m[p] != GitStatus::Untracked
            && ancestor_within(a, p, w) {
        Some(GitStatus::Modified)
    } else if exists|p: PathKey|
        #![trigger m[p]]
        m.contains_key(p) && m[p] == GitStatus::Untracked && ancestor_within(a, p, w) {
        Some(GitStatus::Untracked)
    } else {
        None
    }
}

/// The statuses with every directory between a changed path and the work
/// directory given its summary, where it has no status of its own.
pub open spec fn summarized(m: Map<PathKey, GitStatus>, w: PathKey) -> Map<PathKey, GitStatus> {
    Map::new(
        |a: PathKey| m.contains_key(a) || dir_summary(m, w, a) is Some,
        |a: PathKey| if m.contains_key(a) { m[a] } else { dir_summary(m, w, a)->0 },
    )
}

/// How directory summaries behave: a reported path keeps its own status; a
/// directory without one gets Modified or Untracked only, and only within
/// the work directory; Modified whenever a change other than an untracked
/// file lies below it; and ignored files below it count for nothing.
pub proof fn directory_summary_law(m: Map<PathKey, GitStatus>, w: PathKey, a: PathKey)
    ensures
        m.contains_key(a) ==> summarized(m, w).contains_key(a) && summarized(m, w)[a] == m[a],
        !m.contains_key(a) && summarized(m, w).contains_key(a) ==> {
            &&& summarized(m, w)[a] == GitStatus::Modified || summarized(m, w)[a] == GitStatus::Untracked
            &&& exists|p: PathKey| #[trigger] m.contains_key(p) && ancestor_within(a, p, w)
        },
        !m.contains_key(a) && (exists|p: PathKey|
            #![trigger m[p]]
            m.contains_key(p) && m[p] != GitStatus::Ignored && m[p] != GitStatus::Untracked && ancestor_within(a, p, w))
            ==> summarized(m, w)[a] == GitStatus::Modified,
        dir_summary(m, w, a) == dir_summary(m.restrict(m.dom().filter(|p: PathKey| m[p] != GitStatus::Ignored)), w, a),
{
    let keep = m.dom().filter(|p: PathKey| m[p] != GitStatus::Ignored);
    let r = m.restrict(keep);
    assert forall|p: PathKey| #[trigger] r.contains_key(p) implies m.contains_key(p) && r[p] == m[p] && m[p] != GitStatus::Ignored by {
    }
    if exists|p: PathKey|
        #![trigger m[p]]
        m.contains_key(p) && m[p] != GitStatus::Ignored && m[p] != GitStatus::Untracked && ancestor_within(a, p, w) {
        let p = choose|p: PathKey|
            #![trigger m[p]]
            m.contains_key(p) && m[p] != GitStatus::Ignored && m[p] != GitStatus::Untracked && ancestor_within(a, p, w);
        assert(keep.contains(p));
        assert(r.contains_key(p) && r[p] == m[p]);
    } else if exists|p: PathKey|
        #![trigger m[p]]
        m.contains_key(p) && m[p] == GitStatus::Untracked && ancestor_within(a, p, w) {
        let p = choose|p: PathKey|
            #![trigger m[p]]
            m.contains_key(p) && m[p] == GitStatus::Untracked && ancestor_within(a, p, w);
        assert(keep.contains(p));
        assert(r.contains_key(p) && r[p] == m[p]);
        assert(m.contains_key(p) && ancestor_within(a, p, w));
    }
}

/// A listed path shows its own status; without one, a directory above it
/// that is ignored makes it show Ignored.
pub proof fn ignored_directories_cover_their_contents(m: Map<PathKey, GitStatus>, a: PathKey, k: PathKey)
    requires
        m.contains_key(a),
        m[a] == GitStatus::Ignored,
        a.0 == k.0,
        a.1.len() < k.1.len(),
        a.1 == k.1.take(a.1.len() as int),
    ensures
        status_lookup(m, k) == if m.contains_key(k) { Some(m[k]) } else { Some(GitStatus::Ignored) },
{
    assert(m[a] == GitStatus::Ignored);
}

/// The statuses in order, the later replacing the earlier.
pub open spec fn raw_map(raw: Seq<(String, GitStatus)>) -> Map<PathKey, GitStatus>
    decreases raw.len(),
{
    if raw.len() == 0 {
        Map::empty()
    } else {
        raw_map(raw.drop_last()).insert(path_key(raw.last().0@), raw.last().1)
    }
}

proof fn lemma_map_upto_dom(ks: Seq<PathKey>, vs: Seq<GitStatus>, n: int, k: PathKey)
    requires
        0 <= n <= ks.len(),
        n <= vs.len(),
    ensures
        map_upto(ks, vs, n).contains_key(k) <==> exists|j: int| 0 <= j < n && ks[j] == k,
    decreases n,
{
    if n > 0 {
        lemma_map_upto_dom(ks, vs, n - 1, k);
        if map_upto(ks, vs, n - 1).contains_key(k) {
            let j = choose|j: int| 0 <= j < n - 1 && ks[j] == k;
            assert(0 <= j < n && ks[j] == k);
        }
    }
}

/// Whether `w` is a prefix key of `p` (same absoluteness, leading components).
fn is_prefix_key(w: &Key, p: &Key) -> (r: bool)
    ensures
        r == (w.view_key().0 == p.view_key().0 && w.view_key().1.len() <= p.view_key().1.len()
            && w.view_key().1 == p.view_key().1.take(w.view_key().1.len() as int)),
{
    if w.absolute != p.absolute {
        return false;
    }
    let n = w.parts.len();
    if n > p.parts.len() {
        return false;
    }
    let mut i: usize = 0;
    while i < n
        invariant
            n == w.parts@.len(),
            n <= p.parts@.len(),
            i <= n,
            forall|j: int| 0 <= j < i ==> w.parts@[j]@ == p.parts@[j]@,
        decreases n - i,
    {
        if !text_eq(w.parts[i].as_str(), p.parts[i].as_str()) {
            assert(texts(w.parts@)[i as int] != texts(p.parts@).take(n as int)[i as int]);
            return false;
        }
        i = i + 1;
    }
    assert(texts(w.parts@) =~= texts(p.parts@).take(n as int));
    true
}

fn within(a: &Key, p: &Key, w: &Key) -> (r: bool)
    ensures
        r == ancestor_within(a.view_key(), p.view_key(), w.view_key()),
{
    a.parts.len() < p.parts.len() && is_prefix_key(a, p) && is_prefix_key(w, a)
}

/// The summary of directory `a` from the final statuses `fv` of the keys.
fn summary_of(a: &Key, keys: &Vec<Key>, fv: &Vec<GitStatus>, w: &Key, Ghost(m): Ghost<Map<PathKey, GitStatus>>) -> (r: GitStatus)
    requires
        keys@.len() == fv@.len(),
        forall|j: int| #![trigger keys@[j]] 0 <= j < keys@.len() ==> m.contains_key(keys@[j].view_key()) && m[keys@[j].view_key()] == fv@[j],
        forall|p: PathKey| #[trigger] m.contains_key(p) ==> exists|j: int| 0 <= j < keys@.len() && keys@[j].view_key() == p,
        dir_summary(m, w.view_key(), a.view_key()) is Some,
    ensures
        dir_summary(m, w.view_key(), a.view_key()) == Some(r),
{
    let n = keys.len();
    let mut j: usize = 0;
    while j < n
        invariant
            n == keys@.len(),
            n == fv@.len(),
            j <= n,
            forall|k: int| #![trigger keys@[k]] 0 <= k < keys@.len() ==> m.contains_key(keys@[k].view_key()) && m[keys@[k].view_key()] == fv@[k],
            forall|k: int| 0 <= k < j ==> !(fv@[k] != GitStatus::Ignored && fv@[k] != GitStatus::Untracked
                && ancestor_within(a.view_key(), #[trigger] keys@[k].view_key(), w.view_key())),
        decreases n - j,
    {
        let v = fv[j];
        if v != GitStatus::Ignored && v != GitStatus::Untracked && within(a, &keys[j], w) {
            proof {
                let p = keys@[j as int].view_key();
                assert(m.contains_key(p) && m[p] == v);
            }
            return GitStatus::Modified;
        }
        j = j + 1;
    }
    proof {
        if exists|p: PathKey|
            #![trigger m[p]]
            m.contains_key(p) && m[p] != GitStatus::Ignored && m[p] != GitStatus::Untracked
                && ancestor_within(a.view_key(), p, w.view_key()) {
            let p = choose|p: PathKey|
                #![trigger m[p]]
                m.contains_key(p) && m[p] != GitStatus::Ignored && m[p] != GitStatus::Untracked
                    && ancestor_within(a.view_key(), p, w.view_key());
            let k = choose|k: int| 0 <= k < keys@.len() && keys@[k].view_key() == p;
            assert(m.contains_key(keys@[k].view_key()));
            assert(false);
        }
    }
    GitStatus::Untracked
}

/// The candidate directories found from the first `j` keys.
pub open spec fn candidate_upto(ks: Seq<PathKey>, m: Map<PathKey, GitStatus>, w: PathKey, j: int, a: PathKey) -> bool {
    exists|k: int| 0 <= k < j && m[ks[k]] != GitStatus::Ignored && #[trigger] ancestor_within(a, ks[k], w)
}

/// Collects the statuses a repository reported (in order; a path reported
/// twice keeps the later status) and gives every directory between a
/// reported path and the work directory its summary (see `summarized`).
pub fn summarize_statuses(raw: &Vec<(String, GitStatus)>, work_dir: &str) -> (r: StatusMap)
    ensures
        r.wf(),
        r.view_map() == summarized(raw_map(raw@), path_key(work_dir@)),
{
    let mut statuses = StatusMap::new();
    let mut result = StatusMap::new();
    let n = raw.len();
    let mut i: usize = 0;
    while i < n
        invariant
            n == raw@.len(),
            i <= n,
            statuses.wf(),
            result.wf(),
            statuses.view_map() == raw_map(raw@.take(i as int)),
            result.view_map() == raw_map(raw@.take(i as int)),
        decreases n - i,
    {
        statuses.insert(raw[i].0.as_str(), raw[i].1);
        result.insert(raw[i].0.as_str(), raw[i].1);
        proof {
            assert(raw@.take(i + 1).drop_last() =~= raw@.take(i as int));
        }
        i = i + 1;
    }
    assert(raw@.take(n as int) =~= raw@);
    let ghost m = raw_map(raw@);
    let w = key_of(work_dir);
    let ghost wk = w.view_key();
    let keys = &statuses.keys;
    let ghost ks = key_views(keys@);
    let nk = keys.len();
    assert(ks.len() == nk);
    assert(statuses.vals@.len() == nk);
    proof {
        assert forall|p: PathKey| #[trigger] m.contains_key(p) implies exists|j: int| 0 <= j < keys@.len() && keys@[j].view_key() == p by {
            lemma_map_upto_dom(ks, statuses.vals@, nk as int, p);
            let j = choose|j: int| 0 <= j < nk && ks[j] == p;
            assert(keys@[j].view_key() == p);
        }
    }
    // The final status of every recorded key.
    let mut fv: Vec<GitStatus> = Vec::new();
    let mut j: usize = 0;
    while j < nk
        invariant
            nk == keys@.len(),
            ks == key_views(keys@),
            ks.len() == nk,
            statuses.vals@.len() == nk,
            keys@ == statuses.keys@,
            statuses.wf(),
            m == statuses.view_map(),
            j <= nk,
            fv@.len() == j,
            forall|k: int| #![trigger keys@[k]] 0 <= k < j ==> m.contains_key(keys@[k].view_key()) && m[keys@[k].view_key()] == fv@[k],
        decreases nk - j,
    {
        proof {
            lemma_map_upto_dom(ks, statuses.vals@, nk as int, ks[j as int]);
            assert(ks[j as int] == keys@[j as int].view_key());
            assert(exists|jj: int| 0 <= jj < nk && ks[jj] == ks[j as int]);
            assert(map_upto(ks, statuses.vals@, nk as int).contains_key(ks[j as int]));
            assert(statuses.view_map() == map_upto(ks, statuses.vals@, nk as int));
            assert(statuses.view_map().contains_key(keys@[j as int].view_key()));
        }
        let v = statuses.get_key(&keys[j]);
        fv.push(v.unwrap());
        j = j + 1;
    }
    let mut j: usize = 0;
    while j < nk
        invariant
            nk == keys@.len(),
            nk == fv@.len(),
            ks == key_views(keys@),
            statuses.wf(),
            result.wf(),
            m == statuses.view_map(),
            wk == w.view_key(),
            forall|k: int| #![trigger keys@[k]] 0 <= k < keys@.len() ==> m.contains_key(keys@[k].view_key()) && m[keys@[k].view_key()] == fv@[k],
            forall|p: PathKey| #[trigger] m.contains_key(p) ==> exists|k: int| 0 <= k < keys@.len() && keys@[k].view_key() == p,
            j <= nk,
            result.view_map() == Map::new(
                |a: PathKey| m.contains_key(a) || candidate_upto(ks, m, wk, j as int, a),
                |a: PathKey| if m.contains_key(a) { m[a] } else { dir_summary(m, wk, a)->0 },
            ),
        decreases nk - j,
    {
        let p = &keys[j];
        let ghost pk = p.view_key();
        assert(ks[j as int] == pk);
        let v = fv[j];
        assert(m.contains_key(pk) && m[pk] == v);
        let ghost before = result.view_map();
        if v != GitStatus::Ignored && is_prefix_key(&w, p) {
            let wl = w.parts.len();
            let pl = p.parts.len();
            assert(texts(p.parts@).len() == pl);
            assert(texts(w.parts@).len() == wl);
            let mut len: usize = wl;
            while len < pl
                invariant
                    nk == keys@.len(),
                    nk == fv@.len(),
                    j < nk,
                    ks == key_views(keys@),
                    pk == keys@[j as int].view_key(),
                    pk == p.view_key(),
                    pl == p.parts@.len(),
                    v == fv@[j as int],
                    v != GitStatus::Ignored,
                    statuses.wf(),
                    result.wf(),
                    m == statuses.view_map(),
                    wk == w.view_key(),
                    wl == wk.1.len(),
                    pl == pk.1.len(),
                    wk.0 == pk.0,
                    wk.1 == pk.1.take(wl as int),
                    forall|k: int| #![trigger keys@[k]] 0 <= k < keys@.len() ==> m.contains_key(keys@[k].view_key()) && m[keys@[k].view_key()] == fv@[k],
                    forall|q: PathKey| #[trigger] m.contains_key(q) ==> exists|k: int| 0 <= k < keys@.len() && keys@[k].view_key() == q,
                    wl <= len <= pl,
                    forall|x: PathKey| m.contains_key(x) ==> before.contains_key(x),
                    result.view_map() == Map::new(
                        |a: PathKey| before.contains_key(a) || (ancestor_within(a, pk, wk) && a.1.len() < len),
                        |a: PathKey| if m.contains_key(a) { m[a] } else { dir_summary(m, wk, a)->0 },
                    ),
                decreases pl - len,
            {
                let a = key_prefix(p, len);
                let ghost ak = a.view_key();
                proof {
                    assert(ak.1 =~= pk.1.take(len as int));
                    assert(wk.1 =~= ak.1.take(wl as int));
                    assert(ancestor_within(ak, pk, wk));
                    assert(m.contains_key(pk) && m[pk] == v);
                    assert(dir_summary(m, wk, ak) is Some);
                }
                let ghost pre = result.view_map();
                let ghost target = Map::new(
                    |x: PathKey| before.contains_key(x) || (ancestor_within(x, pk, wk) && x.1.len() < len + 1),
                    |x: PathKey| if m.contains_key(x) { m[x] } else { dir_summary(m, wk, x)->0 },
                );
                proof {
                    assert forall|x: PathKey| ancestor_within(x, pk, wk) && x.1.len() == len implies x == ak by {
                        assert(x.1 =~= ak.1);
                    }
                }
                if statuses.get_key(&a).is_none() {
                    let s = summary_of(&a, keys, &fv, &w, Ghost(m));
                    result.insert_key(a, s);
                    assert(result.view_map() =~= target);
                } else {
                    assert(before.contains_key(ak));
                    assert(result.view_map() =~= target);
                }
                len = len + 1;
            }
            assert(result.view_map() =~= Map::new(
                |a: PathKey| m.contains_key(a) || candidate_upto(ks, m, wk, j + 1, a),
                |a: PathKey| if m.contains_key(a) { m[a] } else { dir_summary(m, wk, a)->0 },
            )) by {
                assert forall|x: PathKey| candidate_upto(ks, m, wk, j + 1, x) implies candidate_upto(ks, m, wk, j as int, x) || ancestor_within(x, pk, wk) by {
                    let k = choose|k: int| 0 <= k < j + 1 && m[ks[k]] != GitStatus::Ignored && #[trigger] ancestor_within(x, ks[k], wk);
                    if k < j {
                        assert(candidate_upto(ks, m, wk, j as int, x));
                    }
                }
                assert forall|x: PathKey| ancestor_within(x, pk, wk) implies candidate_upto(ks, m, wk, j + 1, x) by {
                    assert(m[ks[j as int]] != GitStatus::Ignored);
                }
            }
        } else {
            assert(result.view_map() =~= Map::new(
                |a: PathKey| m.contains_key(a) || candidate_upto(ks, m, wk, j + 1, a),
                |a: PathKey| if m.contains_key(a) { m[a] } else { dir_summary(m, wk, a)->0 },
            )) by {
                assert forall|x: PathKey| candidate_upto(ks, m, wk, j + 1, x) implies candidate_upto(ks, m, wk, j as int, x) by {
                    let k = choose|k: int| 0 <= k < j + 1 && m[ks[k]] != GitStatus::Ignored && #[trigger] ancestor_within(x, ks[k], wk);
                    if k == j {
                        assert(m[ks[j as int]] == v);
                        if v != GitStatus::Ignored {
                            assert(wk.1 =~= pk.1.take(wk.1.len() as int));
                        }
                    }
                }
            }
        }
        j = j + 1;
    }
    proof {
        assert(result.view_map() =~= summarized(m, wk)) by {
            assert forall|x: PathKey| !m.contains_key(x) implies (candidate_upto(ks, m, wk, nk as int, x) <==> dir_summary(m, wk, x) is Some) by {
                if dir_summary(m, wk, x) is Some {
                    if exists|p: PathKey|
                        #![trigger m[p]]
                        m.contains_key(p) && m[p] != GitStatus::Ignored && m[p] != GitStatus::Untracked
                            && ancestor_within(x, p, wk) {
                        let p = choose|p: PathKey|
                            #![trigger m[p]]
                            m.contains_key(p) && m[p] != GitStatus::Ignored && m[p] != GitStatus::Untracked
                                && ancestor_within(x, p, wk);
                        let k = choose|k: int| 0 <= k < keys@.len() && keys@[k].view_key() == p;
                        assert(ks[k] == p);
                    } else {
                        let p = choose|p: PathKey|
                            #![trigger m[p]]
                            m.contains_key(p) && m[p] == GitStatus::Untracked && ancestor_within(x, p, wk);
                        let k = choose|k: int| 0 <= k < keys@.len() && keys@[k].view_key() == p;
                        assert(ks[k] == p);
                    }
                }
                if candidate_upto(ks, m, wk, nk as int, x) {
                    let k = choose|k: int| 0 <= k < nk && m[ks[k]] != GitStatus::Ignored && #[trigger] ancestor_within(x, ks[k], wk);
                    assert(m.contains_key(keys@[k].view_key()));
                    assert(ks[k] == keys@[k].view_key());
                    let mk = m[ks[k]];
                    if mk == GitStatus::Untracked {
                        assert(m.contains_key(ks[k]) && m[ks[k]] == GitStatus::Untracked && ancestor_within(x, ks[k], wk));
                    } else {
                        assert(m.contains_key(ks[k]) && m[ks[k]] != GitStatus::Ignored && m[ks[k]] != GitStatus::Untracked && ancestor_within(x, ks[k], wk));
                    }
                }
            }
        }
    }
    result
}

/// The status of a listed path: its own, else Ignored when a directory above
/// it is ignored (a collapsed ignored directory), else none.
pub open spec fn status_lookup(m: Map<PathKey, GitStatus>, k: PathKey) -> Option<GitStatus> {
    if m.contains_key(k) {
        Some(m[k])
    } else if exists|a: PathKey|
        #![trigger m[a]]
        m.contains_key(a) && m[a] == GitStatus::Ignored && a.0 == k.0 && a.1.len() < k.1.len() && a.1 == k.1.take(a.1.len() as int) {
        Some(GitStatus::Ignored)
    } else {
        None
    }
}

/// Whether a status-map key is a proper ancestor of `k` with status Ignored.
fn ignored_ancestor(statuses: &StatusMap, k: &Key) -> (r: bool)
    requires
        statuses.wf(),
    ensures
        r == exists|a: PathKey|
            #![trigger statuses.view_map()[a]]
            statuses.view_map().contains_key(a) && statuses.view_map()[a] == GitStatus::Ignored && a.0 == k.view_key().0
                && a.1.len() < k.view_key().1.len() && a.1 == k.view_key().1.take(a.1.len() as int),
{
    let ghost m = statuses.view_map();
    let ghost kk = k.view_key();
    let n = k.parts.len();
    assert(kk.1.len() == n);
    let mut len: usize = 0;
    while len < n
        invariant
            statuses.wf(),
            m == statuses.view_map(),
            kk == k.view_key(),
            n == kk.1.len(),
            len <= n,
            forall|a: PathKey|
                #![trigger m[a]]
                m.contains_key(a) && a.0 == kk.0 && a.1.len() < len && a.1 == kk.1.take(a.1.len() as int) ==> m[a] != GitStatus::Ignored,
        decreases n - len,
    {
        let a = key_prefix(k, len);
        let ghost ak = a.view_key();
        let found = statuses.get_key(&a);
        if found == Some(GitStatus::Ignored) {
            assert(ak.1 =~= kk.1.take(ak.1.len() as int));
            assert(m.contains_key(ak) && m[ak] == GitStatus::Ignored);
            return true;
        }
        assert forall|a2: PathKey|
            #![trigger m[a2]]
            m.contains_key(a2) && a2.0 == kk.0 && a2.1.len() < len + 1 && a2.1 == kk.1.take(a2.1.len() as int) implies m[a2] != GitStatus::Ignored by {
            if a2.1.len() == len {
                assert(a2.1 =~= ak.1);
            }
        }
        len = len + 1;
    }
    false
}

/// The status of a listed path (see `status_lookup`), looked up under its
/// status path (see `status_path_of`).
pub fn status_for_path(statuses: &StatusMap, absolute: &str, canonical_parent: Option<&str>) -> (r: Option<GitStatus>)
    requires
        statuses.wf(),
    ensures
        r == status_lookup(statuses.view_map(), path_key(status_path_of(absolute@, match canonical_parent {
            Some(p) => Some(p@),
            None => None,
        }))),
{
    let path = status_path(absolute, canonical_parent);
    let k = key_of(path.as_str());
    match statuses.get_key(&k) {
        Some(s) => Some(s),
        None => {
            if ignored_ancestor(statuses, &k) {
                Some(GitStatus::Ignored)
            } else {
                None
            }
        },
    }
}

/// The path a status is looked up under: the parent directory resolved
/// (`canonical_parent`, when the reader could resolve it) joined with the file
/// name, so that the final symbolic link itself is not followed; the absolute
/// path when it has no parent or name, or the parent could not be resolved.
pub open spec fn status_path_of(absolute: Seq<char>, canonical_parent: Option<Seq<char>>) -> Seq<char> {
    match (canonical_parent, file_name_of(absolute)) {
        (Some(p), Some(name)) => join_of(p, name),
        _ => absolute,
    }
}

/// See `status_path_of`.
pub fn status_path(absolute: &str, canonical_parent: Option<&str>) -> (r: String)
    ensures
        r@ == status_path_of(absolute@, match canonical_parent {
            Some(p) => Some(p@),
            None => None,
        }),
{
    match canonical_parent {
        Some(p) => match file_name(absolute) {
            Some(name) => join(p, name.as_str()),
            None => String::from_str(absolute),
        },
        None => String::from_str(absolute),
    }
}

/// One item of a repository's status report, as plain values: what changed
/// between the index and the work tree, what the directory walk found, or
/// what changed between the HEAD tree and the index.
#[derive(Clone, Copy, PartialEq, Eq, Structural, Debug)]
pub enum StatusItem {
    /// A tracked file that the work tree no longer has.
    WorktreeRemoved,
    /// A tracked file whose content or type changed in the work tree.
    WorktreeChanged,
    /// A tracked file with a merge conflict.
    WorktreeConflict,
    /// A tracked file whose index entry only needs refreshing, or that is
    /// marked intent-to-add.
    WorktreeUnchanged,
    /// A file renamed or copied in the work tree.
    WorktreeRewrite,
    /// A file that the index does not track.
    Untracked,
    /// A file that ignore rules leave out (or a directory of such files).
    Ignored,
    /// Another entry of the directory walk (tracked, pruned).
    OtherDirEntry,
    /// A file added to the index.
    IndexAdded,
    /// A file deleted from the index.
    IndexDeleted,
    /// A file modified in the index.
    IndexModified,
    /// A file renamed or copied in the index.
    IndexRewrite,
}

/// The status an item gives its path: removals are Deleted, other work-tree
/// changes and conflicts Modified; untracked and ignored files keep that
/// status; index additions, deletions and modifications are Added, Deleted
/// and Modified, index renames Modified; the rest give none.
pub open spec fn item_status(i: StatusItem) -> Option<GitStatus> {
    match i {
        StatusItem::WorktreeRemoved => Some(GitStatus::Deleted),
        StatusItem::WorktreeChanged => Some(GitStatus::Modified),
        StatusItem::WorktreeConflict => Some(GitStatus::Modified),
        StatusItem::WorktreeUnchanged => None,
        StatusItem::WorktreeRewrite => None,
        StatusItem::Untracked => Some(GitStatus::Untracked),
        StatusItem::Ignored => Some(GitStatus::Ignored),
        StatusItem::OtherDirEntry => None,
        StatusItem::IndexAdded => Some(GitStatus::Added),
        StatusItem::IndexDeleted => Some(GitStatus::Deleted),
        StatusItem::IndexModified => Some(GitStatus::Modified),
        StatusItem::IndexRewrite => Some(GitStatus::Modified),
    }
}

/// See `item_status`.
pub fn status_of_item(i: StatusItem) -> (r: Option<GitStatus>)
    ensures
        r == item_status(i),
{
    match i {
        StatusItem::WorktreeRemoved => Some(GitStatus::Deleted),
        StatusItem::WorktreeChanged => Some(GitStatus::Modified),
        StatusItem::WorktreeConflict => Some(GitStatus::Modified),
        StatusItem::WorktreeUnchanged => None,
        StatusItem::WorktreeRewrite => None,
        StatusItem::Untracked => Some(GitStatus::Untracked),
        StatusItem::Ignored => Some(GitStatus::Ignored),
        StatusItem::OtherDirEntry => None,
        StatusItem::IndexAdded => Some(GitStatus::Added),
        StatusItem::IndexDeleted => Some(GitStatus::Deleted),
        StatusItem::IndexModified => Some(GitStatus::Modified),
        StatusItem::IndexRewrite => Some(GitStatus::Modified),
    }
}

/// The statuses of a report, in order, each under the work directory joined
/// with the item's path relative to it; a path reported twice keeps the later
/// status, and items that give no status are passed over.
pub open spec fn reported_map(work_dir: Seq<char>, items: Seq<(String, StatusItem)>) -> Map<PathKey, GitStatus>
    decreases items.len(),
{
    if items.len() == 0 {
        Map::empty()
    } else {
        let prev = reported_map(work_dir, items.drop_last());
        match item_status(items.last().1) {
            Some(s) => prev.insert(path_key(join_of(work_dir, items.last().0@)), s),
            None => prev,
        }
    }
}

/// Whether the status report asked for includes ignored paths: when
/// `.gitignore` files are not respected (ignored entries are listed then),
/// and when a single file rather than a directory is listed, so that a file
/// named on purpose shows that it is ignored.
pub fn reports_ignored(listing_directory: bool, respect_git_ignore: bool) -> (r: bool)
    ensures
        r == (!listing_directory || !respect_git_ignore),
{
    !listing_directory || !respect_git_ignore
}

/// The statuses of a repository's report (see `reported_map`), with every
/// directory between a reported path and the work directory given its
/// summary (see `summarized`).
pub fn get_statuses(work_dir: &str, items: &Vec<(String, StatusItem)>) -> (r: StatusMap)
    ensures
        r.wf(),
        r.view_map() == summarized(reported_map(work_dir@, items@), path_key(work_dir@)),
{
    let mut raw: Vec<(String, GitStatus)> = Vec::new();
    let n = items.len();
    let mut i: usize = 0;
    while i < n
        invariant
            n == items@.len(),
            i <= n,
            raw_map(raw@) == reported_map(work_dir@, items@.take(i as int)),
        decreases n - i,
    {
        let ghost prev = raw@;
        proof {
            assert(items@.take(i + 1).drop_last() =~= items@.take(i as int));
        }
        match status_of_item(items[i].1) {
            Some(s) => {
                let p = join(work_dir, items[i].0.as_str());
                raw.push((p, s));
                assert(raw@.drop_last() =~= prev);
            },
            None => {},
        }
        i = i + 1;
    }
    assert(items@.take(n as int) =~= items@);
    summarize_statuses(&raw, work_dir)
}

} // verus!

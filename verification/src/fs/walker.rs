//! The choices of the directory walk: which directories to enter, which globs
//! to leave out, and the order of the entries.
use vstd::prelude::*;
use crate::cli::Cli;
use crate::display::DisplayOptions;
use crate::fs::entry::Entry;
use crate::text::{lowercase, push_char, texts, to_lowercase};

verus! {

/// What to walk and how.
pub struct Walker {
    path: String,
    show_hidden: bool,
    use_git_ignore: bool,
    max_depth: usize,
    ignore_globs: Vec<String>,
}

impl Walker {
    pub fn new(path: &str, show_hidden: bool, use_git_ignore: bool, max_depth: usize, ignore_globs: Vec<String>) -> (r: Self)
        ensures
            r.path()@ == path@,
            r.show_hidden() == show_hidden,
            r.use_git_ignore() == use_git_ignore,
            r.max_depth() == max_depth,
            r.ignore_globs()@ == ignore_globs@,
    {
        Walker { path: String::from_str(path), show_hidden, use_git_ignore, max_depth, ignore_globs }
    }

    /// The directory walked.
    #[verifier::when_used_as_spec(spec_path)]
    pub fn path(&self) -> (r: &String)
        ensures
            r == self.spec_path(),
    {
        &self.path
    }

    pub closed spec fn spec_path(&self) -> &String {
        &self.path
    }

    /// Whether hidden entries are listed.
    #[verifier::when_used_as_spec(spec_show_hidden)]
    pub fn show_hidden(&self) -> (r: bool)
        ensures
            r == self.spec_show_hidden(),
    {
        self.show_hidden
    }

    pub closed spec fn spec_show_hidden(&self) -> bool {
        self.show_hidden
    }

    /// Whether .gitignore files are respected.
    #[verifier::when_used_as_spec(spec_use_git_ignore)]
    pub fn use_git_ignore(&self) -> (r: bool)
        ensures
            r == self.spec_use_git_ignore(),
    {
        self.use_git_ignore
    }

    pub closed spec fn spec_use_git_ignore(&self) -> bool {
        self.use_git_ignore
    }

    /// The deepest level listed (1: the directory's own entries).
    #[verifier::when_used_as_spec(spec_max_depth)]
    pub fn max_depth(&self) -> (r: usize)
        ensures
            r == self.spec_max_depth(),
    {
        self.max_depth
    }

    pub closed spec fn spec_max_depth(&self) -> usize {
        self.max_depth
    }

    /// The glob patterns of entries to leave out.
    #[verifier::when_used_as_spec(spec_ignore_globs)]
    pub fn ignore_globs(&self) -> (r: &Vec<String>)
        ensures
            r == self.spec_ignore_globs(),
    {
        &self.ignore_globs
    }

    pub closed spec fn spec_ignore_globs(&self) -> &Vec<String> {
        &self.ignore_globs
    }

    /// Whether the walk goes into a directory found at `current_depth`.
    pub fn descends(&self, is_dir: bool, current_depth: usize) -> (r: bool)
        ensures
            r == (is_dir && current_depth < self.max_depth()),
    {
        is_dir && current_depth < self.max_depth
    }

    /// The override patterns handed to the walk: each ignore glob negated
    /// with a leading '!'.
    pub fn override_globs(&self) -> (r: Vec<String>)
        ensures
            texts(r@) == texts(self.ignore_globs()@).map_values(|g: Seq<char>| seq!['!'] + g),
    {
        let n = self.ignore_globs.len();
        let mut out: Vec<String> = Vec::new();
        let mut i: usize = 0;
        while i < n
            invariant
                n == self.ignore_globs@.len(),
                i <= n,
                texts(out@) == texts(self.ignore_globs@).take(i as int).map_values(|g: Seq<char>| seq!['!'] + g),
            decreases n - i,
        {
            let mut g = String::new();
            push_char(&mut g, '!');
            g.append(self.ignore_globs[i].as_str());
            let ghost prev = out@;
            out.push(g);
            proof {
                assert(out@ == prev.push(g));
                assert(texts(out@) =~= texts(prev).push(g@));
                assert(texts(self.ignore_globs@).take(i + 1) =~= texts(self.ignore_globs@).take(i as int).push(self.ignore_globs@[i as int]@));
                assert(texts(out@) =~= texts(self.ignore_globs@).take(i + 1).map_values(|g: Seq<char>| seq!['!'] + g));
            }
            i = i + 1;
        }
        assert(texts(self.ignore_globs@).take(n as int) =~= texts(self.ignore_globs@));
        out
    }
}

/// `a` comes before `b` as strings order (by code points).
pub open spec fn text_lt(a: Seq<char>, b: Seq<char>) -> bool
    decreases a.len(),
{
    if b.len() == 0 {
        false
    } else if a.len() == 0 {
        true
    } else if a[0] != b[0] {
        (a[0] as u32) < (b[0] as u32)
    } else {
        text_lt(a.drop_first(), b.drop_first())
    }
}

/// Comparison of texts as strings order them.
pub fn text_less(a: &str, b: &str) -> (r: bool)
    ensures
        r == text_lt(a@, b@),
{
    let n = a.unicode_len();
    let m = b.unicode_len();
    let mut i: usize = 0;
    assert(a@.skip(0) =~= a@);
    assert(b@.skip(0) =~= b@);
    while i < n && i < m
        invariant
            n == a@.len(),
            m == b@.len(),
            i <= n,
            i <= m,
            text_lt(a@, b@) == text_lt(a@.skip(i as int), b@.skip(i as int)),
        decreases n - i,
    {
        let x = a.get_char(i);
        let y = b.get_char(i);
        proof {
            assert(a@.skip(i as int)[0] == x);
            assert(b@.skip(i as int)[0] == y);
            assert(a@.skip(i as int).drop_first() =~= a@.skip(i + 1));
            assert(b@.skip(i as int).drop_first() =~= b@.skip(i + 1));
        }
        if x != y {
            return (x as u32) < (y as u32);
        }
        i = i + 1;
    }
    if i == m {
        assert(b@.skip(i as int).len() == 0);
        false
    } else {
        assert(a@.skip(i as int).len() == 0);
        assert(b@.skip(i as int).len() > 0);
        true
    }
}

/// The sort key of an entry: its lower-cased name.
pub open spec fn sort_key(e: Entry) -> Seq<char> {
    lowercase(e.name@)
}

/// The position at which a later element enters a sorted list: after every
/// element whose key is not greater (so equal keys keep their order).
pub open spec fn insert_pos(s: Seq<Entry>, k: Seq<char>, i: int) -> int
    decreases i,
{
    if i <= 0 {
        0
    } else if text_lt(k, sort_key(s[i - 1])) {
        insert_pos(s, k, i - 1)
    } else {
        i
    }
}

/// A stable sort of entries by their sort keys (insertion of each element in
/// turn).
pub open spec fn sorted_entries(s: Seq<Entry>) -> Seq<Entry>
    decreases s.len(),
{
    if s.len() == 0 {
        s
    } else {
        let prev = sorted_entries(s.drop_last());
        let p = insert_pos(prev, sort_key(s.last()), prev.len() as int);
        prev.insert(p, s.last())
    }
}

proof fn lemma_sorted_len(s: Seq<Entry>)
    ensures
        sorted_entries(s).len() == s.len(),
    decreases s.len(),
{
    if s.len() > 0 {
        lemma_sorted_len(s.drop_last());
        let prev = sorted_entries(s.drop_last());
        lemma_insert_pos_range(prev, sort_key(s.last()), prev.len() as int);
    }
}

proof fn lemma_insert_pos_range(s: Seq<Entry>, k: Seq<char>, i: int)
    requires
        0 <= i <= s.len(),
    ensures
        0 <= insert_pos(s, k, i) <= i,
    decreases i,
{
    if i > 0 {
        lemma_insert_pos_range(s, k, i - 1);
    }
}

/// Sorts entries by lower-cased name, keeping the order of equal names
/// (`sort_by_key` is stable).
pub fn sort_entries(entries: Vec<Entry>) -> (r: Vec<Entry>)
    ensures
        r@ == sorted_entries(entries@),
{
    let mut input = entries;
    let n = input.len();
    // Take entries off the back, then insert them front to back.
    let mut rev: Vec<Entry> = Vec::new();
    let ghost orig = input@;
    while input.len() > 0
        invariant
            orig.len() == n,
            input@.len() + rev@.len() == n,
            input@ == orig.take(input@.len() as int),
            forall|k: int| 0 <= k < rev@.len() ==> #[trigger] rev@[k] == orig[n - 1 - k],
        decreases input@.len(),
    {
        let e = input.pop().unwrap();
        rev.push(e);
        assert(input@ =~= orig.take(input@.len() as int));
    }
    let mut out: Vec<Entry> = Vec::new();
    let mut keys: Vec<String> = Vec::new();
    let mut i: usize = 0;
    assert(orig.take(0) =~= Seq::<Entry>::empty());
    while rev.len() > 0
        invariant
            orig.len() == n,
            rev@.len() + i == n,
            forall|k: int| 0 <= k < rev@.len() ==> #[trigger] rev@[k] == orig[n - 1 - k],
            out@ == sorted_entries(orig.take(i as int)),
            keys@.len() == out@.len(),
            forall|k: int| 0 <= k < out@.len() ==> #[trigger] keys@[k]@ == sort_key(out@[k]),
        decreases rev@.len(),
    {
        let e = rev.pop().unwrap();
        assert(e == orig[i as int]);
        let key = to_lowercase(e.name.as_str());
        let ghost prev = out@;
        proof {
            lemma_sorted_len(orig.take(i as int));
        }
        let mut p = out.len();
        while p > 0 && text_less(key.as_str(), keys[p - 1].as_str())
            invariant
                keys@.len() == out@.len(),
                out@ == prev,
                forall|k: int| 0 <= k < out@.len() ==> #[trigger] keys@[k]@ == sort_key(out@[k]),
                key@ == sort_key(e),
                p <= out@.len(),
                insert_pos(prev, key@, prev.len() as int) == insert_pos(prev, key@, p as int),
            decreases p,
        {
            p = p - 1;
        }
        out.insert(p, e);
        keys.insert(p, key);
        proof {
            let s = orig.take(i + 1);
            assert(s.drop_last() =~= orig.take(i as int));
            assert(s.last() == e);
        }
        i = i + 1;
        assert forall|k: int| 0 <= k < out@.len() implies #[trigger] keys@[k]@ == sort_key(out@[k]) by {
            if k < p {
            } else if k == p {
            } else {
                assert(out@[k] == prev[k - 1]);
            }
        }
    }
    assert(orig.take(n as int) =~= orig);
    out
}

/// How deep a listing walks: the configured or given depth for the tree view
/// (unbounded without one), the directory's own entries otherwise.
pub open spec fn listing_depth(tree: bool, depth: Option<usize>) -> usize {
    if tree {
        match depth {
            Some(d) => d,
            None => usize::MAX,
        }
    } else {
        1
    }
}

/// The walk of a listing: the path given, hidden entries with `--all`, the
/// Git ignore choice and ignore globs of the options, and `listing_depth`.
pub fn listing_walker(args: &Cli, options: &DisplayOptions) -> (r: Walker)
    ensures
        r.path()@ == args.path@,
        r.show_hidden() == args.all,
        r.use_git_ignore() == options.git_ignore,
        r.max_depth() == listing_depth(args.tree, options.depth),
        r.ignore_globs()@ == options.ignore_globs@,
{
    let max_depth = if args.tree {
        match options.depth {
            Some(d) => d,
            None => usize::MAX,
        }
    } else {
        1
    };
    Walker::new(args.path.as_str(), args.all, options.git_ignore, max_depth, options.ignore_globs.clone())
}

proof fn lemma_text_lt_irreflexive(a: Seq<char>)
    ensures
        !text_lt(a, a),
    decreases a.len(),
{
    if a.len() > 0 {
        lemma_text_lt_irreflexive(a.drop_first());
    }
}

proof fn lemma_text_lt_transitive(a: Seq<char>, b: Seq<char>, c: Seq<char>)
    requires
        text_lt(a, b),
        text_lt(b, c),
    ensures
        text_lt(a, c),
    decreases a.len(),
{
    if a.len() > 0 && b.len() > 0 && c.len() > 0 && a[0] == b[0] && b[0] == c[0] {
        lemma_text_lt_transitive(a.drop_first(), b.drop_first(), c.drop_first());
    }
}

proof fn lemma_text_lt_total(a: Seq<char>, b: Seq<char>)
    requires
        a != b,
    ensures
        text_lt(a, b) || text_lt(b, a),
    decreases a.len(),
{
    if a.len() > 0 && b.len() > 0 {
        if a[0] == b[0] {
            if a.drop_first() == b.drop_first() {
                assert(a =~= seq![a[0]] + a.drop_first());
                assert(b =~= seq![b[0]] + b.drop_first());
            }
            lemma_text_lt_total(a.drop_first(), b.drop_first());
        } else {
            vstd::utf8::char_u32_cast(a[0], a[0] as u32);
            vstd::utf8::char_u32_cast(b[0], b[0] as u32);
        }
    } else if a.len() == 0 && b.len() == 0 {
        assert(a =~= b);
    }
}

/// `a` sorts no later than `b`.
pub open spec fn key_le(a: Seq<char>, b: Seq<char>) -> bool {
    !text_lt(b, a)
}

proof fn lemma_key_le_transitive(a: Seq<char>, b: Seq<char>, c: Seq<char>)
    requires
        key_le(a, b),
        key_le(b, c),
    ensures
        key_le(a, c),
{
    if text_lt(c, a) {
        if a == b {
        } else {
            lemma_text_lt_total(a, b);
            lemma_text_lt_transitive(c, a, b);
        }
    }
}

/// Entries in order of their sort keys.
pub open spec fn sorted_by_key(s: Seq<Entry>) -> bool {
    forall|i: int, j: int| 0 <= i < j < s.len() ==> key_le(sort_key(#[trigger] s[i]), sort_key(#[trigger] s[j]))
}

/// The entries of a list whose sort key is `k`, in order.
pub open spec fn with_key(s: Seq<Entry>, k: Seq<char>) -> Seq<Entry> {
    s.filter(|e: Entry| sort_key(e) == k)
}

proof fn lemma_insert_pos_split(s: Seq<Entry>, k: Seq<char>, i: int)
    requires
        0 <= i <= s.len(),
    ensures
        forall|j: int| insert_pos(s, k, i) <= j < i ==> text_lt(k, sort_key(#[trigger] s[j])),
        insert_pos(s, k, i) > 0 ==> !text_lt(k, sort_key(s[insert_pos(s, k, i) - 1])),
    decreases i,
{
    if i > 0 && text_lt(k, sort_key(s[i - 1])) {
        lemma_insert_pos_split(s, k, i - 1);
    }
}

proof fn lemma_sorted_insert(prev: Seq<Entry>, e: Entry)
    requires
        sorted_by_key(prev),
    ensures
        sorted_by_key(prev.insert(insert_pos(prev, sort_key(e), prev.len() as int), e)),
{
    let k = sort_key(e);
    let n = prev.len() as int;
    let p = insert_pos(prev, k, n);
    lemma_insert_pos_range(prev, k, n);
    lemma_insert_pos_split(prev, k, n);
    assert forall|i: int| 0 <= i < p implies key_le(sort_key(#[trigger] prev[i]), k) by {
        if i < p - 1 {
            assert(key_le(sort_key(prev[i]), sort_key(prev[p - 1])));
            lemma_key_le_transitive(sort_key(prev[i]), sort_key(prev[p - 1]), k);
        }
    }
    assert forall|j: int| p <= j < n implies key_le(k, sort_key(#[trigger] prev[j])) by {
        assert(text_lt(k, sort_key(prev[j])));
        if text_lt(sort_key(prev[j]), k) {
            lemma_text_lt_transitive(k, sort_key(prev[j]), k);
            lemma_text_lt_irreflexive(k);
        }
    }
    let r = prev.insert(p, e);
    prev.insert_ensures(p, e);
    assert forall|i: int, j: int| 0 <= i < j < r.len() implies key_le(sort_key(#[trigger] r[i]), sort_key(#[trigger] r[j])) by {
        if j < p {
            assert(r[i] == prev[i] && r[j] == prev[j]);
        } else if j == p {
            assert(r[i] == prev[i]);
        } else if i == p {
            assert(r[j] == prev[j - 1]);
        } else if i < p {
            assert(r[i] == prev[i] && r[j] == prev[j - 1]);
            lemma_key_le_transitive(sort_key(prev[i]), k, sort_key(prev[j - 1]));
        } else {
            assert(r[i] == prev[i - 1] && r[j] == prev[j - 1]);
        }
    }
}

proof fn lemma_with_key_insert(prev: Seq<Entry>, e: Entry, k: Seq<char>)
    requires
        forall|j: int| insert_pos(prev, sort_key(e), prev.len() as int) <= j < prev.len()
            ==> text_lt(sort_key(e), sort_key(#[trigger] prev[j])),
        0 <= insert_pos(prev, sort_key(e), prev.len() as int) <= prev.len(),
    ensures
        with_key(prev.insert(insert_pos(prev, sort_key(e), prev.len() as int), e), k)
            == if sort_key(e) == k { with_key(prev, k).push(e) } else { with_key(prev, k) },
{
    let p = insert_pos(prev, sort_key(e), prev.len() as int);
    let pred = |x: Entry| sort_key(x) == k;
    let a = prev.subrange(0, p);
    let b = prev.subrange(p, prev.len() as int);
    assert(prev =~= a + b);
    assert(prev.insert(p, e) =~= a + (seq![e] + b));
    Seq::filter_distributes_over_add(a, b, pred);
    Seq::filter_distributes_over_add(a, seq![e] + b, pred);
    Seq::filter_distributes_over_add(seq![e], b, pred);
    if sort_key(e) == k {
        assert forall|j: int| 0 <= j < b.len() implies !pred(#[trigger] b[j]) by {
            assert(b[j] == prev[p + j]);
            assert(text_lt(k, sort_key(prev[p + j])));
            lemma_text_lt_irreflexive(k);
        }
        b.lemma_all_neg_filter_empty(pred);
        assert(seq![e].filter(pred) =~= seq![e]) by {
            reveal_with_fuel(Seq::filter, 2);
        }
        assert(with_key(prev, k) == a.filter(pred) + b.filter(pred));
        assert(with_key(prev.insert(p, e), k) =~= with_key(prev, k).push(e));
    } else {
        assert(seq![e].filter(pred) =~= Seq::<Entry>::empty()) by {
            reveal_with_fuel(Seq::filter, 2);
        }
        assert(with_key(prev.insert(p, e), k) =~= with_key(prev, k));
    }
}

/// The order of a listing: the sorted entries are the same entries, in the
/// order of their lower-cased names, and entries whose lower-cased names are
/// equal keep the order they came in.
pub proof fn sorted_entries_law(s: Seq<Entry>)
    ensures
        sorted_entries(s).to_multiset() == s.to_multiset(),
        sorted_by_key(sorted_entries(s)),
        forall|k: Seq<char>| #[trigger] with_key(sorted_entries(s), k) == with_key(s, k),
    decreases s.len(),
{
    broadcast use vstd::seq_lib::group_to_multiset_ensures;
    if s.len() == 0 {
    } else {
        let rest = s.drop_last();
        sorted_entries_law(rest);
        let prev = sorted_entries(rest);
        let e = s.last();
        let p = insert_pos(prev, sort_key(e), prev.len() as int);
        lemma_insert_pos_range(prev, sort_key(e), prev.len() as int);
        lemma_insert_pos_split(prev, sort_key(e), prev.len() as int);
        assert(s =~= rest.push(e));
        lemma_sorted_insert(prev, e);
        assert forall|k: Seq<char>| #[trigger] with_key(sorted_entries(s), k) == with_key(s, k) by {
            lemma_with_key_insert(prev, e, k);
            let pred = |x: Entry| sort_key(x) == k;
            Seq::filter_distributes_over_add(rest, seq![e], pred);
            if sort_key(e) == k {
                assert(seq![e].filter(pred) =~= seq![e]) by {
                    reveal_with_fuel(Seq::filter, 2);
                }
            } else {
                assert(seq![e].filter(pred) =~= Seq::<Entry>::empty()) by {
                    reveal_with_fuel(Seq::filter, 2);
                }
            }
            assert(rest + seq![e] =~= s);
        }
    }
}

} // verus!

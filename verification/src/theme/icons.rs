//! Nerd Font icons for file names, chosen by the lower-cased file name first and
//! the lower-cased extension next.
use vstd::prelude::*;
use crate::path::{extension, extension_of, extension_of_name, file_name, file_name_of, last_dot};
use crate::text::{ascii_lower, ascii_lower_char, is_ascii_text, lowercase, to_lowercase};

verus! {

/// The icons chosen by whole file name.
pub open spec fn name_icons() -> Seq<(Seq<char>, Seq<char>)> {
    seq![
        ("cargo.toml"@, "\u{e68b}"@),
        ("cargo.lock"@, "\u{e68b}"@),
        (".gitignore"@, "\u{e725}"@),
        ("license"@, "\u{e60a}"@),
        ("readme.md"@, "\u{e609}"@),
    ]
}

/// The icons chosen by extension.
pub open spec fn extension_icons() -> Seq<(Seq<char>, Seq<char>)> {
    seq![
        ("rs"@, "\u{e7a8}"@),
        ("md"@, "\u{e609}"@),
        ("toml"@, "\u{e615}"@),
        ("txt"@, "\u{f15c}"@),
        ("json"@, "\u{e60b}"@),
        ("lock"@, "\u{f023}"@),
    ]
}

/// The icon of a directory.
pub open spec fn dir_icon() -> Seq<char> {
    "\u{f115}"@
}

/// The icon of a file that no table names.
pub open spec fn file_icon() -> Seq<char> {
    "\u{f016}"@
}

/// The value of the first entry with key `k`.
pub open spec fn lookup(t: Seq<(Seq<char>, Seq<char>)>, k: Seq<char>) -> Option<Seq<char>>
    decreases t.len(),
{
    if t.len() == 0 {
        None
    } else if t[0].0 == k {
        Some(t[0].1)
    } else {
        lookup(t.drop_first(), k)
    }
}

/// The icon shown for a path.
pub open spec fn icon_for(path: Seq<char>, is_dir: bool) -> Seq<char> {
    if is_dir {
        dir_icon()
    } else {
        let name = match file_name_of(path) {
            Some(n) => lowercase(n),
            None => Seq::<char>::empty(),
        };
        match lookup(name_icons(), name) {
            Some(icon) => icon,
            None => {
                let ext = match extension_of(path) {
                    Some(e) => lowercase(e),
                    None => Seq::<char>::empty(),
                };
                match lookup(extension_icons(), ext) {
                    Some(icon) => icon,
                    None => file_icon(),
                }
            },
        }
    }
}

/// A lower-cased optional text, empty when absent.
pub open spec fn lower_or_empty(t: Option<Seq<char>>) -> Seq<char> {
    match t {
        Some(n) => lowercase(n),
        None => Seq::<char>::empty(),
    }
}

/// Icons ignore letter case: a directory always gets the directory icon, and
/// two files whose names and extensions lower-case alike get the same icon.
pub proof fn icons_ignore_letter_case(p: Seq<char>, q: Seq<char>, is_dir: bool)
    requires
        lower_or_empty(file_name_of(p)) == lower_or_empty(file_name_of(q)),
        lower_or_empty(extension_of(p)) == lower_or_empty(extension_of(q)),
    ensures
        icon_for(p, is_dir) == icon_for(q, is_dir),
        is_dir ==> icon_for(p, is_dir) == dir_icon(),
{
}

/// The icon of a path whose name is ASCII: as `icon_for`, with the name and
/// extension lower-cased as ASCII.
pub open spec fn icon_for_ascii(path: Seq<char>, is_dir: bool) -> Seq<char> {
    if is_dir {
        dir_icon()
    } else {
        let name = match file_name_of(path) {
            Some(n) => ascii_lower(n),
            None => Seq::<char>::empty(),
        };
        match lookup(name_icons(), name) {
            Some(icon) => icon,
            None => {
                let ext = match extension_of(path) {
                    Some(e) => ascii_lower(e),
                    None => Seq::<char>::empty(),
                };
                match lookup(extension_icons(), ext) {
                    Some(icon) => icon,
                    None => file_icon(),
                }
            },
        }
    }
}

proof fn lemma_last_dot_range(s: Seq<char>)
    ensures
        last_dot(s) matches Some(i) ==> 0 <= i < s.len(),
    decreases s.len(),
{
    if s.len() > 0 {
        lemma_last_dot_range(s.drop_last());
    }
}

proof fn lemma_last_dot_case(a: Seq<char>, b: Seq<char>)
    requires
        ascii_lower(a) == ascii_lower(b),
    ensures
        last_dot(a) == last_dot(b),
    decreases a.len(),
{
    assert(a.len() == ascii_lower(a).len());
    assert(b.len() == ascii_lower(b).len());
    if a.len() > 0 {
        let n = a.len() - 1;
        assert(ascii_lower(a)[n] == ascii_lower_char(a[n]));
        assert(ascii_lower(b)[n] == ascii_lower_char(b[n]));
        let ca = a[n];
        let cb = b[n];
        if 65 <= (ca as u32) && (ca as u32) <= 90 {
            assert((((ca as u32) + 32) as char) as u32 == (ca as u32) + 32);
        }
        if 65 <= (cb as u32) && (cb as u32) <= 90 {
            assert((((cb as u32) + 32) as char) as u32 == (cb as u32) + 32);
        }
        assert((ca == '.') == (cb == '.'));
        assert(ascii_lower(a.drop_last()) =~= ascii_lower(a).drop_last());
        assert(ascii_lower(b.drop_last()) =~= ascii_lower(b).drop_last());
        lemma_last_dot_case(a.drop_last(), b.drop_last());
    }
}

proof fn lemma_extension_case(a: Seq<char>, b: Seq<char>)
    requires
        ascii_lower(a) == ascii_lower(b),
    ensures
        extension_of_name(a) is Some == extension_of_name(b) is Some,
        extension_of_name(a) matches Some(x) ==> extension_of_name(b) matches Some(y) && ascii_lower(x) == ascii_lower(y),
{
    lemma_last_dot_case(a, b);
    lemma_last_dot_range(a);
    assert(a.len() == ascii_lower(a).len());
    assert(b.len() == ascii_lower(b).len());
    if let Some(i) = last_dot(a) {
        if i != 0 {
            let x = a.subrange(i + 1, a.len() as int);
            let y = b.subrange(i + 1, b.len() as int);
            assert(ascii_lower(x) =~= ascii_lower(a).subrange(i + 1, a.len() as int));
            assert(ascii_lower(y) =~= ascii_lower(b).subrange(i + 1, b.len() as int));
        }
    }
}

proof fn lemma_extension_ascii(a: Seq<char>)
    requires
        is_ascii_text(a),
    ensures
        extension_of_name(a) matches Some(x) ==> is_ascii_text(x),
{
    lemma_last_dot_range(a);
    if let Some(i) = last_dot(a) {
        if i != 0 {
            let x = a.subrange(i + 1, a.len() as int);
            assert forall|j: int| 0 <= j < x.len() implies (#[trigger] x[j] as u32) < 128 by {
                assert(x[j] == a[i + 1 + j]);
            }
        }
    }
}

/// Icons ignore ASCII letter case: two files whose ASCII names differ only in
/// the case of their letters get the same icon.
pub proof fn icons_ignore_ascii_letter_case(p: Seq<char>, q: Seq<char>, a: Seq<char>, b: Seq<char>, is_dir: bool)
    requires
        file_name_of(p) == Some(a),
        file_name_of(q) == Some(b),
        is_ascii_text(a),
        is_ascii_text(b),
        ascii_lower(a) == ascii_lower(b),
    ensures
        icon_for_ascii(p, is_dir) == icon_for_ascii(q, is_dir),
{
    lemma_extension_case(a, b);
}

/// The text view of a table of pairs.
pub open spec fn pairs_view(v: Seq<(String, String)>) -> Seq<(Seq<char>, Seq<char>)> {
    v.map_values(|p: (String, String)| (p.0@, p.1@))
}

/// Icons by file name and by extension. Keys are unique in each table, so the
/// first match is the only one.
pub struct IconManager {
    icons_by_name: Vec<(String, String)>,
    icons_by_extension: Vec<(String, String)>,
}

fn pair(k: &str, v: &str) -> (r: (String, String))
    ensures
        r.0@ == k@,
        r.1@ == v@,
{
    (String::from_str(k), String::from_str(v))
}

fn find_in(t: &Vec<(String, String)>, key: &str) -> (r: Option<String>)
    ensures
        match r {
            Some(s) => lookup(pairs_view(t@), key@) == Some(s@),
            None => lookup(pairs_view(t@), key@) is None,
        },
{
    let n = t.len();
    let mut i: usize = 0;
    assert(pairs_view(t@).skip(0) =~= pairs_view(t@));
    while i < n
        invariant
            n == t@.len(),
            i <= n,
            lookup(pairs_view(t@), key@) == lookup(pairs_view(t@).skip(i as int), key@),
        decreases n - i,
    {
        let ghost rest = pairs_view(t@).skip(i as int);
        assert(rest[0] == (t@[i as int].0@, t@[i as int].1@));
        assert(rest.drop_first() =~= pairs_view(t@).skip(i + 1));
        if crate::text::text_eq(t[i].0.as_str(), key) {
            return Some(t[i].1.clone());
        }
        i = i + 1;
    }
    assert(pairs_view(t@).skip(n as int) =~= Seq::<(Seq<char>, Seq<char>)>::empty());
    None
}

impl IconManager {
    #[verifier::type_invariant]
    spec fn tables_are_default(self) -> bool {
        &&& pairs_view(self.icons_by_name@) == name_icons()
        &&& pairs_view(self.icons_by_extension@) == extension_icons()
    }

    /// The tables, by name and by extension, as pairs of texts.
    pub closed spec fn tables(self) -> (Seq<(Seq<char>, Seq<char>)>, Seq<(Seq<char>, Seq<char>)>) {
        (pairs_view(self.icons_by_name@), pairs_view(self.icons_by_extension@))
    }

    /// The manager with the default tables (see `name_icons` and
    /// `extension_icons`).
    pub fn new() -> (r: Self)
        ensures
            r.tables() == (name_icons(), extension_icons()),
    {
        let (icons_by_name, icons_by_extension) = Self::default_mappings();
        IconManager { icons_by_name, icons_by_extension }
    }

    /// The default tables: by name and by extension.
    pub fn default_mappings() -> (r: (Vec<(String, String)>, Vec<(String, String)>))
        ensures
            pairs_view(r.0@) == name_icons(),
            pairs_view(r.1@) == extension_icons(),
    {
        let mut by_name: Vec<(String, String)> = Vec::new();
        let mut by_ext: Vec<(String, String)> = Vec::new();
        by_name.push(pair("cargo.toml", "\u{e68b}"));
        by_name.push(pair("cargo.lock", "\u{e68b}"));
        by_name.push(pair(".gitignore", "\u{e725}"));
        by_name.push(pair("license", "\u{e60a}"));
        by_name.push(pair("readme.md", "\u{e609}"));
        by_ext.push(pair("rs", "\u{e7a8}"));
        by_ext.push(pair("md", "\u{e609}"));
        by_ext.push(pair("toml", "\u{e615}"));
        by_ext.push(pair("txt", "\u{f15c}"));
        by_ext.push(pair("json", "\u{e60b}"));
        by_ext.push(pair("lock", "\u{f023}"));
        assert(pairs_view(by_name@) =~= name_icons());
        assert(pairs_view(by_ext@) =~= extension_icons());
        (by_name, by_ext)
    }

    /// The icon of a path: the directory icon for directories, else the icon of
    /// the lower-cased file name, else of the lower-cased extension, else the
    /// generic file icon.
    pub fn get_icon(&self, path: &str, is_dir: bool) -> (r: String)
        ensures
            r@ == icon_for(path@, is_dir),
            (file_name_of(path@) matches Some(n) && is_ascii_text(n)) ==> r@ == icon_for_ascii(path@, is_dir),
    {
        proof {
            use_type_invariant(self);
        }
        if is_dir {
            return String::from_str("\u{f115}");
        }
        let ghost ascii_name = file_name_of(path@) matches Some(n) && is_ascii_text(n);
        let name = match file_name(path) {
            Some(n) => to_lowercase(n.as_str()),
            None => String::new(),
        };
        proof {
            if ascii_name {
                let n = file_name_of(path@)->0;
                lemma_extension_ascii(n);
                assert(extension_of(path@) == extension_of_name(n));
            }
        }
        if let Some(icon) = find_in(&self.icons_by_name, name.as_str()) {
            return icon;
        }
        let ext = match extension(path) {
            Some(e) => to_lowercase(e.as_str()),
            None => String::new(),
        };
        if let Some(icon) = find_in(&self.icons_by_extension, ext.as_str()) {
            return icon;
        }
        String::from_str("\u{f016}")
    }
}

} // verus!

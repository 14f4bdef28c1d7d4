//! Unix path text: the file name, its extension, the parent and joining, over
//! the components separated by '/'.
use vstd::prelude::*;
use crate::text::push_char;

verus! {

/// The pieces of a text between '/' separators (empty pieces included).
pub open spec fn split_slash(p: Seq<char>) -> Seq<Seq<char>>
    decreases p.len(),
{
    if p.len() == 0 {
        seq![Seq::<char>::empty()]
    } else if p.last() == '/' {
        split_slash(p.drop_last()).push(Seq::<char>::empty())
    } else {
        let prev = split_slash(p.drop_last());
        prev.update(prev.len() - 1, prev.last().push(p.last()))
    }
}

/// A piece that names something: neither empty nor ".".
pub open spec fn is_named(s: Seq<char>) -> bool {
    s.len() != 0 && s != seq!['.']
}

/// The named pieces of a path, in order.
pub open spec fn named_parts(p: Seq<char>) -> Seq<Seq<char>> {
    split_slash(p).filter(|s: Seq<char>| is_named(s))
}

/// The final component of a path, unless the path ends in "..", is a root or
/// is empty (`Path::file_name`).
pub open spec fn file_name_of(p: Seq<char>) -> Option<Seq<char>> {
    let parts = named_parts(p);
    if parts.len() == 0 || parts.last() == seq!['.', '.'] {
        None
    } else {
        Some(parts.last())
    }
}

/// The index of the last '.' in a text, if any.
pub open spec fn last_dot(s: Seq<char>) -> Option<int>
    decreases s.len(),
{
    if s.len() == 0 {
        None
    } else if s.last() == '.' {
        Some(s.len() - 1)
    } else {
        last_dot(s.drop_last())
    }
}

/// The text after the last '.' of a file name, unless there is no '.' or the
/// only '.' begins the name (`Path::extension` on the file name).
pub open spec fn extension_of_name(name: Seq<char>) -> Option<Seq<char>> {
    match last_dot(name) {
        Some(i) => if i == 0 {
            None
        } else {
            Some(name.subrange(i + 1, name.len() as int))
        },
        None => None,
    }
}

/// `Path::extension`: the extension of the file name, if any.
pub open spec fn extension_of(p: Seq<char>) -> Option<Seq<char>> {
    match file_name_of(p) {
        Some(n) => extension_of_name(n),
        None => None,
    }
}

/// `PathBuf::join` with a relative component: a '/' is put between when the
/// base is non-empty and does not already end in '/'.
pub open spec fn join_of(base: Seq<char>, name: Seq<char>) -> Seq<char> {
    if base.len() == 0 || base.last() == '/' {
        base + name
    } else {
        base.push('/') + name
    }
}

proof fn lemma_split_nonempty(p: Seq<char>)
    ensures
        split_slash(p).len() >= 1,
    decreases p.len(),
{
    if p.len() > 0 {
        lemma_split_nonempty(p.drop_last());
    }
}

/// Splits a path text into its named components.
pub fn named_components(p: &str) -> (r: Vec<String>)
    ensures
        r@.len() == named_parts(p@).len(),
        forall|i: int| 0 <= i < r@.len() ==> #[trigger] r@[i]@ == named_parts(p@)[i],
{
    let n = p.unicode_len();
    let mut done: Vec<String> = Vec::new();
    let mut cur = String::new();
    let mut i: usize = 0;
    proof {
        assert(p@.subrange(0, 0) =~= Seq::<char>::empty());
        assert(split_slash(Seq::<char>::empty()).drop_last().filter(|s: Seq<char>| is_named(s))
            =~= Seq::<Seq<char>>::empty());
    }
    while i < n
        invariant
            n == p@.len(),
            i <= n,
            split_slash(p@.subrange(0, i as int)).len() >= 1,
            cur@ == split_slash(p@.subrange(0, i as int)).last(),
            done@.len() == split_slash(p@.subrange(0, i as int)).drop_last().filter(
                |s: Seq<char>| is_named(s),
            ).len(),
            forall|k: int|
                0 <= k < done@.len() ==> #[trigger] done@[k]@ == split_slash(
                    p@.subrange(0, i as int),
                ).drop_last().filter(|s: Seq<char>| is_named(s))[k],
        decreases n - i,
    {
        let c = p.get_char(i);
        let ghost prev = p@.subrange(0, i as int);
        let ghost next = p@.subrange(0, i + 1);
        proof {
            assert(next.drop_last() =~= prev);
            assert(next.last() == c);
            lemma_split_nonempty(prev);
        }
        if c == '/' {
            let ghost old_done = done@;
            let named = is_named_exec(&cur);
            if named {
                done.push(cur);
            }
            cur = String::new();
            proof {
                let sp = split_slash(prev);
                assert(split_slash(next) == sp.push(Seq::<char>::empty()));
                assert(split_slash(next).drop_last() =~= sp);
                assert(sp =~= sp.drop_last().push(sp.last()));
                sp.drop_last().lemma_filter_push(sp.last(), |s: Seq<char>| is_named(s));
            }
        } else {
            push_char(&mut cur, c);
            proof {
                let sp = split_slash(prev);
                assert(split_slash(next) == sp.update(sp.len() - 1, sp.last().push(c)));
                assert(split_slash(next).drop_last() =~= sp.drop_last());
            }
        }
        i = i + 1;
    }
    let ghost sp = split_slash(p@);
    proof {
        assert(p@.subrange(0, n as int) =~= p@);
        lemma_split_nonempty(p@);
        assert(sp =~= sp.drop_last().push(sp.last()));
        sp.drop_last().lemma_filter_push(sp.last(), |s: Seq<char>| is_named(s));
    }
    if is_named_exec(&cur) {
        done.push(cur);
    }
    done
}

fn is_named_exec(s: &String) -> (r: bool)
    ensures
        r == is_named(s@),
{
    let n = s.as_str().unicode_len();
    if n == 0 {
        return false;
    }
    if n == 1 && s.as_str().get_char(0) == '.' {
        assert(s@ =~= seq!['.']);
        return false;
    }
    if n == 1 {
        assert(s@[0] != '.');
        assert(s@ != seq!['.']);
    }
    true
}

/// `Path::file_name` on a path text.
pub fn file_name(p: &str) -> (r: Option<String>)
    ensures
        match r {
            Some(s) => file_name_of(p@) == Some(s@),
            None => file_name_of(p@) is None,
        },
{
    let mut parts = named_components(p);
    let k = parts.len();
    if k == 0 {
        return None;
    }
    let last = parts.pop().unwrap();
    assert(last@ == named_parts(p@).last());
    let s = last.as_str();
    if s.unicode_len() == 2 && s.get_char(0) == '.' && s.get_char(1) == '.' {
        assert(last@ =~= seq!['.', '.']);
        return None;
    }
    proof {
        if last@ == seq!['.', '.'] {
            assert(last@.len() == 2 && last@[0] == '.' && last@[1] == '.');
        }
    }
    Some(last)
}

/// The extension of a file name (see `extension_of_name`).
pub fn extension_of_file_name(name: &str) -> (r: Option<String>)
    ensures
        match r {
            Some(s) => extension_of_name(name@) == Some(s@),
            None => extension_of_name(name@) is None,
        },
{
    let n = name.unicode_len();
    let mut i: usize = n;
    assert(name@.subrange(0, n as int) =~= name@);
    while i > 0
        invariant
            i <= n,
            n == name@.len(),
            last_dot(name@) == last_dot(name@.subrange(0, i as int)),
        decreases i,
    {
        let c = name.get_char(i - 1);
        proof {
            let pre = name@.subrange(0, i as int);
            assert(pre.drop_last() =~= name@.subrange(0, i - 1));
            assert(pre.last() == c);
        }
        if c == '.' {
            if i - 1 == 0 {
                return None;
            }
            let rest = name.substring_char(i, n);
            return Some(String::from_str(rest));
        }
        i = i - 1;
    }
    assert(name@.subrange(0, 0) =~= Seq::<char>::empty());
    None
}

/// `Path::extension` on a path text.
pub fn extension(p: &str) -> (r: Option<String>)
    ensures
        match r {
            Some(s) => extension_of(p@) == Some(s@),
            None => extension_of(p@) is None,
        },
{
    match file_name(p) {
        Some(n) => extension_of_file_name(n.as_str()),
        None => None,
    }
}

/// `PathBuf::join` with a relative component.
pub fn join(base: &str, name: &str) -> (r: String)
    ensures
        r@ == join_of(base@, name@),
{
    let mut s = String::from_str(base);
    let n = base.unicode_len();
    if n != 0 && base.get_char(n - 1) != '/' {
        push_char(&mut s, '/');
    }
    s.append(name);
    s
}

} // verus!

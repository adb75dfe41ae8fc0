//! Unix path text: joining a relative path onto a directory, and a file name's
//! stem and extension.
use vstd::prelude::*;

use crate::text::{chars_of, nonempty_parts, opt_chars, split_nonempty, string_from_chars};

verus! {

/// The `.` pieces of `ps` dropped.
pub open spec fn drop_dots(ps: Seq<Seq<char>>) -> Seq<Seq<char>>
    decreases ps.len(),
{
    if ps.len() == 0 {
        Seq::<Seq<char>>::empty()
    } else {
        let prev = drop_dots(ps.drop_last());
        if ps.last() == seq!['.'] {
            prev
        } else {
            prev.push(ps.last())
        }
    }
}

/// The components of a Unix path past its root: the non-empty pieces between `/`,
/// without the `.` pieces.
pub open spec fn path_components(p: Seq<char>) -> Seq<Seq<char>> {
    drop_dots(nonempty_parts(p, '/'))
}

/// The final component of the path `p`, as `std::path::Path::file_name` returns it:
/// none when the path has no component past its root or ends in `..`.
pub open spec fn path_file_name(p: Seq<char>) -> Option<Seq<char>> {
    let c = path_components(p);
    if c.len() == 0 {
        None
    } else if c.last() == seq!['.', '.'] {
        None
    } else {
        Some(c.last())
    }
}

/// Whether `s` is exactly `t`.
fn chars_equal(s: &str, t: &Vec<char>) -> (b: bool)
    ensures
        b == (s@ == t@),
{
    let v = chars_of(s);
    if v.len() != t.len() {
        assert(v@.len() != t@.len());
        return false;
    }
    let mut i: usize = 0;
    while i < v.len()
        invariant
            i <= v.len(),
            v.len() == t.len(),
            v@ == s@,
            forall|j: int| 0 <= j < i ==> v@[j] == t@[j],
        decreases v.len() - i,
    {
        if v[i] != t[i] {
            assert(v@[i as int] != t@[i as int]);
            assert(v@ != t@);
            return false;
        }
        i += 1;
    }
    assert(v@ =~= t@);
    true
}

/// The final component of the path `p`, if it has one.
pub fn file_name_of(p: &str) -> (r: Option<String>)
    ensures
        opt_chars(r) == path_file_name(p@),
{
    let parts = split_nonempty(p, '/');
    let dot = vec!['.'];
    let dotdot = vec!['.', '.'];
    assert(dot@ =~= seq!['.']);
    assert(dotdot@ =~= seq!['.', '.']);
    let mut comps: Vec<String> = Vec::new();
    let mut i: usize = 0;
    while i < parts.len()
        invariant
            i <= parts.len(),
            dot@ == seq!['.'],
            comps.deep_view() == drop_dots(parts.deep_view().take(i as int)),
        decreases parts.len() - i,
    {
        let ghost before = comps.deep_view();
        assert(parts.deep_view().take(i + 1).drop_last() =~= parts.deep_view().take(i as int));
        assert(parts.deep_view().take(i + 1).last() == parts[i as int]@);
        if !chars_equal(parts[i].as_str(), &dot) {
            comps.push(parts[i].clone());
            assert(comps.deep_view() =~= before.push(parts[i as int]@));
        }
        i += 1;
    }
    assert(parts.deep_view().take(parts.len() as int) =~= parts.deep_view());
    if comps.len() == 0 {
        return None;
    }
    let last = &comps[comps.len() - 1];
    assert(last@ == comps.deep_view().last());
    if chars_equal(last.as_str(), &dotdot) {
        None
    } else {
        Some(last.clone())
    }
}

/// `base` with `rel` pushed onto it, as `PathBuf::push` does on Unix: an absolute `rel`
/// replaces `base`; otherwise a `/` is put between them unless `base` is empty or already
/// ends with one.
pub open spec fn join_path(base: Seq<char>, rel: Seq<char>) -> Seq<char> {
    if rel.len() > 0 && rel[0] == '/' {
        rel
    } else if base.len() == 0 || base.last() == '/' {
        base + rel
    } else {
        base + seq!['/'] + rel
    }
}

/// The index of the last `c` in `s` before index `i`, or -1.
pub open spec fn last_index_before(s: Seq<char>, c: char, i: int) -> int
    decreases i,
{
    if i <= 0 {
        -1
    } else if s[i - 1] == c {
        i - 1
    } else {
        last_index_before(s, c, i - 1)
    }
}

/// The stem of a file name: all of it when it has no `.` past its first character,
/// otherwise the part before the last `.`.
pub open spec fn stem_of_name(name: Seq<char>) -> Seq<char> {
    let d = last_index_before(name, '.', name.len() as int);
    if d <= 0 {
        name
    } else {
        name.take(d)
    }
}

/// The extension of a file name: none when it has no `.` past its first character,
/// otherwise the part after the last `.`.
pub open spec fn extension_of_name(name: Seq<char>) -> Option<Seq<char>> {
    let d = last_index_before(name, '.', name.len() as int);
    if d <= 0 {
        None
    } else {
        Some(name.skip(d + 1))
    }
}

/// `Path::file_stem`: the stem of the path's file name.
pub open spec fn path_file_stem(p: Seq<char>) -> Option<Seq<char>> {
    match path_file_name(p) {
        Some(n) => Some(stem_of_name(n)),
        None => None,
    }
}

/// `Path::extension`: the extension of the path's file name.
pub open spec fn path_extension(p: Seq<char>) -> Option<Seq<char>> {
    match path_file_name(p) {
        Some(n) => extension_of_name(n),
        None => None,
    }
}

/// `base` joined with `rel` (see `join_path`).
pub fn join_path_str(base: &str, rel: &str) -> (r: String)
    ensures
        r@ == join_path(base@, rel@),
{
    let b = chars_of(base);
    let mut out = chars_of(rel);
    if out.len() > 0 && out[0] == '/' {
        return string_from_chars(&out);
    }
    let mut res = b.clone();
    assert(res@ == b@);
    if b.len() > 0 && b[b.len() - 1] != '/' {
        res.push('/');
    }
    crate::text::append_chars(&mut res, &out);
    out = res;
    string_from_chars(&out)
}

/// The index of the last `c` in `v`, if any.
fn last_index(v: &Vec<char>, c: char) -> (r: Option<usize>)
    ensures
        match r {
            Some(k) => k < v@.len() && k as int == last_index_before(v@, c, v@.len() as int),
            None => last_index_before(v@, c, v@.len() as int) == -1,
        },
{
    let mut i: usize = v.len();
    while i > 0
        invariant
            i <= v.len(),
            last_index_before(v@, c, i as int) == last_index_before(v@, c, v@.len() as int),
        decreases i,
    {
        if v[i - 1] == c {
            return Some(i - 1);
        }
        i -= 1;
    }
    None
}

/// The stem of `p`'s file name.
pub fn file_stem_of(p: &str) -> (r: Option<String>)
    ensures
        opt_chars(r) == path_file_stem(p@),
{
    match file_name_of(p) {
        None => None,
        Some(name) => {
            let v = chars_of(name.as_str());
            match last_index(&v, '.') {
                Some(d) if d > 0 => {
                    let mut stem: Vec<char> = Vec::new();
                    let mut i: usize = 0;
                    while i < d
                        invariant
                            i <= d,
                            d <= v.len(),
                            stem@ == v@.take(i as int),
                        decreases d - i,
                    {
                        stem.push(v[i]);
                        i += 1;
                        assert(stem@ =~= v@.take(i as int));
                    }
                    Some(string_from_chars(&stem))
                },
                _ => Some(name),
            }
        },
    }
}

/// Whether `p`'s file name has the extension `desktop`.
#[verifier::loop_isolation(false)]
pub fn has_desktop_extension(p: &str) -> (b: bool)
    ensures
        b == (path_extension(p@) == Some("desktop"@)),
{
    match file_name_of(p) {
        None => false,
        Some(name) => {
            let v = chars_of(name.as_str());
            match last_index(&v, '.') {
                Some(d) if d > 0 => {
                    let want = chars_of("desktop");
                    let n = v.len();
                    if n - (d + 1) != want.len() {
                        assert(v@.skip(d + 1).len() != want@.len());
                        return false;
                    }
                    let mut k: usize = 0;
                    while k < want.len()
                        invariant
                            k <= want.len(),
                            d + 1 + want.len() == n,
                            n == v@.len(),
                            forall|j: int| 0 <= j < k ==> v@[d + 1 + j] == want@[j],
                        decreases want.len() - k,
                    {
                        if v[d + 1 + k] != want[k] {
                            assert(v@.skip(d + 1)[k as int] != want@[k as int]);
                            assert(v@.skip(d + 1) != want@);
                            return false;
                        }
                        k += 1;
                    }
                    assert(v@.skip(d + 1) =~= want@);
                    true
                },
                _ => false,
            }
        },
    }
}

} // verus!

//! Character-sequence helpers: substring search, splitting, joining and
//! replacement, each stated over `Seq<char>`.
use vstd::prelude::*;

verus! {

broadcast use vstd::string::group_string_axioms;

// ---------------------------------------------------------------------------
// Specifications
// ---------------------------------------------------------------------------

/// `pat` occurs in `s` starting at index `i`.
pub open spec fn occurs_at(s: Seq<char>, pat: Seq<char>, i: int) -> bool {
    &&& 0 <= i
    &&& i + pat.len() <= s.len()
    &&& s.subrange(i, i + pat.len()) == pat
}

/// `pat` is a substring of `s` (the empty pattern is a substring of everything).
pub open spec fn has_substring(s: Seq<char>, pat: Seq<char>) -> bool {
    exists|i: int| occurs_at(s, pat, i)
}

/// No character of `s` equals `c`.
pub open spec fn lacks_char(s: Seq<char>, c: char) -> bool {
    forall|i: int| 0 <= i < s.len() ==> s[i] != c
}

/// The pieces of `s` between occurrences of `sep`, as `str::split(sep)` yields them:
/// always at least one piece, empty pieces included.
pub open spec fn split_on(s: Seq<char>, sep: char) -> Seq<Seq<char>>
    decreases s.len(),
{
    if s.len() == 0 {
        seq![Seq::<char>::empty()]
    } else {
        let prev = split_on(s.drop_last(), sep);
        if s.last() == sep {
            prev.push(Seq::<char>::empty())
        } else {
            prev.update(prev.len() - 1, prev.last().push(s.last()))
        }
    }
}

/// The non-empty pieces of `ps`, in order.
pub open spec fn nonempty_pieces(ps: Seq<Seq<char>>) -> Seq<Seq<char>>
    decreases ps.len(),
{
    if ps.len() == 0 {
        Seq::<Seq<char>>::empty()
    } else {
        let prev = nonempty_pieces(ps.drop_last());
        if ps.last().len() == 0 {
            prev
        } else {
            prev.push(ps.last())
        }
    }
}

/// The non-empty pieces of `s` between occurrences of `sep`.
pub open spec fn nonempty_parts(s: Seq<char>, sep: char) -> Seq<Seq<char>> {
    nonempty_pieces(split_on(s, sep))
}

/// `parts` joined with `sep` between neighbours.
pub open spec fn join(parts: Seq<Seq<char>>, sep: Seq<char>) -> Seq<char>
    decreases parts.len(),
{
    if parts.len() == 0 {
        Seq::<char>::empty()
    } else if parts.len() == 1 {
        parts[0]
    } else {
        join(parts.drop_last(), sep) + sep + parts.last()
    }
}

/// Every non-overlapping occurrence of `pat` in `s`, scanning left to right,
/// replaced by `rep`; an empty `pat` matches before every character and at the end.
pub open spec fn replace_all(s: Seq<char>, pat: Seq<char>, rep: Seq<char>) -> Seq<char>
    decreases s.len(),
{
    if pat.len() == 0 {
        if s.len() == 0 {
            rep
        } else {
            rep + seq![s[0]] + replace_all(s.drop_first(), pat, rep)
        }
    } else if s.len() < pat.len() {
        s
    } else if s.subrange(0, pat.len() as int) == pat {
        rep + replace_all(s.subrange(pat.len() as int, s.len() as int), pat, rep)
    } else {
        seq![s[0]] + replace_all(s.drop_first(), pat, rep)
    }
}

/// The view of an optional string.
pub open spec fn opt_chars(o: Option<String>) -> Option<Seq<char>> {
    match o {
        Some(s) => Some(s@),
        None => None,
    }
}

/// The view of an optional string slice.
pub open spec fn opt_str(o: Option<&str>) -> Option<Seq<char>> {
    match o {
        Some(s) => Some(s@),
        None => None,
    }
}

/// Whether `c` has the Unicode `White_Space` property (the property that
/// `char::is_whitespace` reports): tab through carriage return, space, next line,
/// no-break space, ogham space mark, en quad through hair space, line and paragraph
/// separators, narrow no-break space, medium mathematical space and ideographic space.
pub open spec fn white_space(c: char) -> bool {
    ||| ('\u{9}' <= c && c <= '\u{d}')
    ||| c == ' '
    ||| c == '\u{85}'
    ||| c == '\u{a0}'
    ||| c == '\u{1680}'
    ||| ('\u{2000}' <= c && c <= '\u{200a}')
    ||| c == '\u{2028}'
    ||| c == '\u{2029}'
    ||| c == '\u{202f}'
    ||| c == '\u{205f}'
    ||| c == '\u{3000}'
}

/// The lowercase form of `s`, as `str::to_lowercase` computes it.
pub uninterp spec fn unicode_lowercase(s: Seq<char>) -> Seq<char>;

/// `c` is an ASCII character.
pub open spec fn is_ascii_char(c: char) -> bool {
    c <= '\u{7f}'
}

/// Every character of `s` is ASCII.
pub open spec fn is_ascii_text(s: Seq<char>) -> bool {
    forall|i: int| 0 <= i < s.len() ==> is_ascii_char(#[trigger] s[i])
}

/// `A` to `Z` mapped to `a` to `z`; every other character unchanged.
pub open spec fn ascii_lower(c: char) -> char {
    if 'A' <= c && c <= 'Z' {
        ((c as int) + 32) as char
    } else {
        c
    }
}

/// `a` to `z` mapped to `A` to `Z`; every other character unchanged.
pub open spec fn ascii_upper(c: char) -> char {
    if 'a' <= c && c <= 'z' {
        ((c as int) - 32) as char
    } else {
        c
    }
}

/// `s` with `A` to `Z` lowered, character by character.
pub open spec fn ascii_lowercase(s: Seq<char>) -> Seq<char> {
    s.map_values(|c: char| ascii_lower(c))
}

/// `s` with `a` to `z` raised, character by character.
pub open spec fn ascii_uppercase(s: Seq<char>) -> Seq<char> {
    s.map_values(|c: char| ascii_upper(c))
}

/// The lowercase form of `s` as `str::to_lowercase` gives it: for ASCII text, the
/// letters lowered one by one.
pub open spec fn lowercase_of(s: Seq<char>) -> Seq<char> {
    if is_ascii_text(s) {
        ascii_lowercase(s)
    } else {
        unicode_lowercase(s)
    }
}

/// The first index at or after `i` that holds no white space (or `s.len()`).
pub open spec fn skip_white_space(s: Seq<char>, i: int) -> int
    decreases s.len() - i,
{
    if 0 <= i < s.len() && white_space(s[i]) {
        skip_white_space(s, i + 1)
    } else {
        i
    }
}

/// The first index at or after `i` that holds white space (or `s.len()`).
pub open spec fn word_end(s: Seq<char>, i: int) -> int
    decreases s.len() - i,
{
    if 0 <= i < s.len() && !white_space(s[i]) {
        word_end(s, i + 1)
    } else {
        i
    }
}

/// `s.split_whitespace().next().unwrap_or(s)`: the first white-space-delimited word,
/// or all of `s` when it holds no word.
pub open spec fn first_word(s: Seq<char>) -> Seq<char> {
    let a = skip_white_space(s, 0);
    if a >= s.len() {
        s
    } else {
        s.subrange(a, word_end(s, a))
    }
}

// ---------------------------------------------------------------------------
// Trusted calls into std
// ---------------------------------------------------------------------------

/// Calls `str::to_lowercase`; its result is named `unicode_lowercase`. Lowercase is
/// Unicode's lowercase mapping, which takes `A` to `Z` to `a` to `z` and leaves every other
/// ASCII character as it is (std documents `to_ascii_lowercase` as doing this to the ASCII
/// letters only, and `to_lowercase` as doing it to ASCII and non-ASCII alike), so on ASCII
/// text the result is the ASCII lowercase, character by character.
#[verifier::external_body]
pub(crate) fn to_lowercase(s: &str) -> (r: String)
    ensures
        r@ == unicode_lowercase(s@),
        is_ascii_text(s@) ==> r@ == ascii_lowercase(s@),
{
    s.to_lowercase()
}

/// Collects characters into a `String` through std's `FromIterator<&char> for String`,
/// which appends them in order.
#[verifier::external_body]
pub(crate) fn string_from_chars(v: &Vec<char>) -> (s: String)
    ensures
        s@ == v@,
{
    v.iter().collect()
}

// ---------------------------------------------------------------------------
// Executable functions
// ---------------------------------------------------------------------------

/// Whether `c` has the Unicode `White_Space` property.
pub fn is_white_space(c: char) -> (b: bool)
    ensures
        b == white_space(c),
{
    ('\u{9}' <= c && c <= '\u{d}') || c == ' ' || c == '\u{85}' || c == '\u{a0}' || c
        == '\u{1680}' || ('\u{2000}' <= c && c <= '\u{200a}') || c == '\u{2028}' || c
        == '\u{2029}' || c == '\u{202f}' || c == '\u{205f}' || c == '\u{3000}'
}

/// The characters of `s`, in order.
pub fn chars_of(s: &str) -> (v: Vec<char>)
    ensures
        v@ == s@,
{
    let mut v: Vec<char> = Vec::new();
    for c in it: s.chars()
        invariant
            v@ == it.seq().take(it.index() as int),
    {
        v.push(c);
    }
    v
}

/// Appends `src` to `dst`.
pub fn append_chars(dst: &mut Vec<char>, src: &Vec<char>)
    ensures
        final(dst)@ == old(dst)@ + src@,
{
    let ghost start = dst@;
    let mut i: usize = 0;
    while i < src.len()
        invariant
            i <= src.len(),
            dst@ == start + src@.take(i as int),
        decreases src.len() - i,
    {
        dst.push(src[i]);
        i += 1;
        assert(dst@ =~= start + src@.take(i as int));
    }
    assert(src@.take(src.len() as int) =~= src@);
}

/// Whether `pat` occurs in `s` at index `i`.
fn occurs_at_index(s: &Vec<char>, pat: &Vec<char>, i: usize) -> (b: bool)
    requires
        i <= s.len(),
    ensures
        b == occurs_at(s@, pat@, i as int),
{
    if pat.len() > s.len() - i {
        return false;
    }
    let mut k: usize = 0;
    while k < pat.len()
        invariant
            k <= pat.len(),
            i + pat.len() <= s.len(),
            forall|j: int| 0 <= j < k ==> s@[i + j] == pat@[j],
        decreases pat.len() - k,
    {
        if s[i + k] != pat[k] {
            assert(s@.subrange(i as int, i + pat.len())[k as int] != pat@[k as int]);
            return false;
        }
        k += 1;
    }
    assert(s@.subrange(i as int, i + pat.len()) =~= pat@);
    true
}

/// Whether `pat` is a substring of `s`.
pub fn contains_chars(s: &Vec<char>, pat: &Vec<char>) -> (b: bool)
    ensures
        b == has_substring(s@, pat@),
{
    if pat.len() > s.len() {
        assert(forall|i: int| !occurs_at(s@, pat@, i));
        return false;
    }
    let last: usize = s.len() - pat.len();
    let mut i: usize = 0;
    loop
        invariant
            last == s.len() - pat.len(),
            i <= last,
            forall|j: int| 0 <= j < i ==> !occurs_at(s@, pat@, j),
        decreases last - i,
    {
        if occurs_at_index(s, pat, i) {
            return true;
        }
        if i == last {
            assert(forall|j: int| !occurs_at(s@, pat@, j));
            return false;
        }
        i += 1;
    }
}

/// Whether `pat` is a substring of `s`.
pub fn str_contains(s: &str, pat: &str) -> (b: bool)
    ensures
        b == has_substring(s@, pat@),
{
    let sv = chars_of(s);
    let pv = chars_of(pat);
    contains_chars(&sv, &pv)
}

/// The first white-space-delimited word of `s`, or all of `s` when it holds none.
pub fn first_word_of(s: &str) -> (r: String)
    ensures
        r@ == first_word(s@),
{
    let v = chars_of(s);
    let n = v.len();
    let mut a: usize = 0;
    while a < n && is_white_space(v[a])
        invariant
            a <= n,
            n == v@.len(),
            skip_white_space(v@, a as int) == skip_white_space(v@, 0),
        decreases n - a,
    {
        a += 1;
    }
    if a >= n {
        return s.to_owned();
    }
    let mut b: usize = a;
    let mut w: Vec<char> = Vec::new();
    while b < n && !is_white_space(v[b])
        invariant
            a <= b <= n,
            n == v@.len(),
            word_end(v@, b as int) == word_end(v@, a as int),
            w@ == v@.subrange(a as int, b as int),
        decreases n - b,
    {
        w.push(v[b]);
        b += 1;
        assert(w@ =~= v@.subrange(a as int, b as int));
    }
    string_from_chars(&w)
}

/// The non-empty pieces of `s` between occurrences of `sep`, in order.
pub fn split_nonempty(s: &str, sep: char) -> (parts: Vec<String>)
    ensures
        parts.deep_view() == nonempty_parts(s@, sep),
{
    let v = chars_of(s);
    let mut parts: Vec<String> = Vec::new();
    let mut cur: Vec<char> = Vec::new();
    let mut i: usize = 0;
    while i < v.len()
        invariant
            i <= v.len(),
            parts.deep_view() == nonempty_pieces(split_on(v@.take(i as int), sep).drop_last()),
            cur@ == split_on(v@.take(i as int), sep).last(),
        decreases v.len() - i,
    {
        let ghost prev = split_on(v@.take(i as int), sep);
        proof {
            lemma_split_on_nonempty(v@.take(i as int), sep);
        }
        let c = v[i];
        assert(v@.take(i + 1).drop_last() =~= v@.take(i as int));
        assert(v@.take(i + 1).last() == c);
        if c == sep {
            assert(split_on(v@.take(i + 1), sep) == prev.push(Seq::<char>::empty()));
            assert(prev.push(Seq::<char>::empty()).drop_last() =~= prev);
            if cur.len() > 0 {
                let piece = string_from_chars(&cur);
                let ghost before = parts.deep_view();
                parts.push(piece);
                assert(parts.deep_view() =~= before.push(prev.last()));
            }
            cur = Vec::new();
        } else {
            let ghost next = prev.update(prev.len() - 1, prev.last().push(c));
            assert(split_on(v@.take(i + 1), sep) == next);
            assert(next.drop_last() =~= prev.drop_last());
            cur.push(c);
        }
        i += 1;
    }
    assert(v@.take(v.len() as int) =~= v@);
    proof {
        lemma_split_on_nonempty(v@, sep);
    }
    let ghost all = split_on(v@, sep);
    assert(all.drop_last().push(all.last()) =~= all);
    if cur.len() > 0 {
        let piece = string_from_chars(&cur);
        let ghost before = parts.deep_view();
        parts.push(piece);
        assert(parts.deep_view() =~= before.push(all.last()));
    }
    parts
}

/// `parts` joined with `sep` between neighbours.
pub fn join_strings(parts: &Vec<String>, sep: &str) -> (r: String)
    ensures
        r@ == join(parts.deep_view(), sep@),
{
    let sepv = chars_of(sep);
    let mut out: Vec<char> = Vec::new();
    let mut i: usize = 0;
    while i < parts.len()
        invariant
            i <= parts.len(),
            sepv@ == sep@,
            out@ == join(parts.deep_view().take(i as int), sep@),
        decreases parts.len() - i,
    {
        let ghost before = out@;
        if i > 0 {
            append_chars(&mut out, &sepv);
        }
        let pv = chars_of(parts[i].as_str());
        append_chars(&mut out, &pv);
        assert(parts.deep_view().take(i + 1).drop_last() =~= parts.deep_view().take(i as int));
        assert(parts.deep_view().take(i + 1).last() == parts[i as int]@);
        if i == 0 {
            assert(out@ =~= join(parts.deep_view().take(1), sep@));
        } else {
            assert(out@ =~= before + sep@ + parts[i as int]@);
        }
        i += 1;
    }
    assert(parts.deep_view().take(parts.len() as int) =~= parts.deep_view());
    string_from_chars(&out)
}

/// Appends `src[from..]` to `dst`.
fn append_suffix(dst: &mut Vec<char>, src: &Vec<char>, from: usize)
    requires
        from <= src.len(),
    ensures
        final(dst)@ == old(dst)@ + src@.skip(from as int),
{
    let ghost start = dst@;
    let mut i: usize = from;
    while i < src.len()
        invariant
            from <= i <= src.len(),
            dst@ == start + src@.subrange(from as int, i as int),
        decreases src.len() - i,
    {
        dst.push(src[i]);
        i += 1;
        assert(dst@ =~= start + src@.subrange(from as int, i as int));
    }
    assert(src@.subrange(from as int, src.len() as int) =~= src@.skip(from as int));
}

/// `s` with every non-overlapping occurrence of `pat` replaced by `rep`, as `str::replace` does.
pub fn replace_str(s: &str, pat: &str, rep: &str) -> (r: String)
    ensures
        r@ == replace_all(s@, pat@, rep@),
{
    let v = chars_of(s);
    let p = chars_of(pat);
    let rv = chars_of(rep);
    let n = v.len();
    let m = p.len();
    let mut out: Vec<char> = Vec::new();
    let mut i: usize = 0;
    assert(v@.skip(0) =~= v@);
    if m == 0 {
        while i < n
            invariant
                i <= n,
                n == v@.len(),
                p@.len() == 0,
                out@ + replace_all(v@.skip(i as int), p@, rv@) == replace_all(v@, p@, rv@),
            decreases n - i,
        {
            let ghost before = out@;
            let ghost rest = v@.skip(i as int);
            assert(rest.drop_first() =~= v@.skip(i + 1));
            assert(rest[0] == v@[i as int]);
            append_chars(&mut out, &rv);
            out.push(v[i]);
            i += 1;
            assert(before + (rv@ + seq![v@[i - 1]] + replace_all(v@.skip(i as int), p@, rv@))
                =~= out@ + replace_all(v@.skip(i as int), p@, rv@));
        }
        assert(v@.skip(n as int) =~= Seq::<char>::empty());
        append_chars(&mut out, &rv);
    } else {
        while i < n
            invariant
                i <= n,
                n == v@.len(),
                m == p@.len(),
                m > 0,
                out@ + replace_all(v@.skip(i as int), p@, rv@) == replace_all(v@, p@, rv@),
            decreases n - i,
        {
            let ghost before = out@;
            let ghost rest = v@.skip(i as int);
            if n - i < m {
                append_suffix(&mut out, &v, i);
                i = n;
                assert(v@.skip(n as int) =~= Seq::<char>::empty());
                assert(out@ =~= out@ + replace_all(v@.skip(n as int), p@, rv@));
            } else if occurs_at_index(&v, &p, i) {
                assert(rest.subrange(0, m as int) =~= v@.subrange(i as int, i + m));
                assert(rest.subrange(m as int, rest.len() as int) =~= v@.skip(i + m));
                append_chars(&mut out, &rv);
                i += m;
                assert(before + (rv@ + replace_all(v@.skip(i as int), p@, rv@))
                    =~= out@ + replace_all(v@.skip(i as int), p@, rv@));
            } else {
                assert(rest.subrange(0, m as int) =~= v@.subrange(i as int, i + m));
                assert(rest.drop_first() =~= v@.skip(i + 1));
                assert(rest[0] == v@[i as int]);
                out.push(v[i]);
                i += 1;
                assert(before + (seq![v@[i - 1]] + replace_all(v@.skip(i as int), p@, rv@))
                    =~= out@ + replace_all(v@.skip(i as int), p@, rv@));
            }
        }
        assert(v@.skip(n as int) =~= Seq::<char>::empty());
        assert(out@ + Seq::<char>::empty() =~= out@);
    }
    string_from_chars(&out)
}

// ---------------------------------------------------------------------------
// Lemmas
// ---------------------------------------------------------------------------

/// Splitting always yields at least one piece.
pub proof fn lemma_split_on_nonempty(s: Seq<char>, sep: char)
    ensures
        split_on(s, sep).len() >= 1,
    decreases s.len(),
{
    if s.len() > 0 {
        lemma_split_on_nonempty(s.drop_last(), sep);
    }
}

/// Appending text free of `sep` extends the last piece.
pub proof fn lemma_split_on_extend(x: Seq<char>, y: Seq<char>, sep: char)
    requires
        lacks_char(y, sep),
    ensures
        split_on(x + y, sep) == split_on(x, sep).update(
            split_on(x, sep).len() - 1,
            split_on(x, sep).last() + y,
        ),
    decreases y.len(),
{
    lemma_split_on_nonempty(x, sep);
    if y.len() == 0 {
        assert(x + y =~= x);
        assert(split_on(x, sep).last() + y =~= split_on(x, sep).last());
        assert(split_on(x, sep).update(split_on(x, sep).len() - 1, split_on(x, sep).last())
            =~= split_on(x, sep));
    } else {
        let y0 = y.drop_last();
        lemma_split_on_extend(x, y0, sep);
        assert((x + y).drop_last() =~= x + y0);
        assert((x + y).last() == y.last());
        assert(y.last() != sep);
        let prev = split_on(x + y0, sep);
        assert(prev.last() + seq![y.last()] =~= split_on(x, sep).last() + y);
        assert(prev.last().push(y.last()) =~= split_on(x, sep).last() + y);
        assert(prev.update(prev.len() - 1, prev.last().push(y.last())) =~= split_on(x, sep).update(
            split_on(x, sep).len() - 1,
            split_on(x, sep).last() + y,
        ));
    }
}

/// Splitting the join of pieces free of `sep` gives the pieces back.
pub proof fn lemma_split_join(ps: Seq<Seq<char>>, sep: char)
    requires
        ps.len() >= 1,
        forall|k: int| 0 <= k < ps.len() ==> lacks_char(#[trigger] ps[k], sep),
    ensures
        split_on(join(ps, seq![sep]), sep) == ps,
    decreases ps.len(),
{
    if ps.len() == 1 {
        lemma_split_on_extend(Seq::<char>::empty(), ps[0], sep);
        assert(Seq::<char>::empty() + ps[0] =~= ps[0]);
        assert(Seq::<char>::empty() + ps[0] =~= ps[0]);
        assert(split_on(Seq::<char>::empty(), sep).update(0, Seq::<char>::empty() + ps[0]) =~= ps);
    } else {
        let front = ps.drop_last();
        lemma_split_join(front, sep);
        let a = join(front, seq![sep]) + seq![sep];
        assert(a.drop_last() =~= join(front, seq![sep]));
        assert(split_on(a, sep) == front.push(Seq::<char>::empty()));
        lemma_split_on_extend(a, ps.last(), sep);
        assert(join(ps, seq![sep]) == a + ps.last());
        assert(Seq::<char>::empty() + ps.last() =~= ps.last());
        assert(front.push(Seq::<char>::empty()).update(front.len() as int, ps.last()) =~= ps);
    }
}

/// Dropping empty pieces leaves a sequence of non-empty pieces unchanged.
pub proof fn lemma_nonempty_pieces_id(ps: Seq<Seq<char>>)
    requires
        forall|k: int| 0 <= k < ps.len() ==> (#[trigger] ps[k]).len() > 0,
    ensures
        nonempty_pieces(ps) == ps,
    decreases ps.len(),
{
    if ps.len() > 0 {
        lemma_nonempty_pieces_id(ps.drop_last());
        assert(ps.drop_last().push(ps.last()) =~= ps);
    }
}

/// The non-empty parts of a join of non-empty pieces free of `sep` are those pieces.
pub proof fn lemma_parts_of_join(ps: Seq<Seq<char>>, sep: char)
    requires
        forall|k: int| 0 <= k < ps.len() ==> lacks_char(#[trigger] ps[k], sep),
        forall|k: int| 0 <= k < ps.len() ==> (#[trigger] ps[k]).len() > 0,
    ensures
        nonempty_parts(join(ps, seq![sep]), sep) == ps,
{
    if ps.len() == 0 {
        assert(split_on(Seq::<char>::empty(), sep) == seq![Seq::<char>::empty()]);
        assert(seq![Seq::<char>::empty()].drop_last() =~= Seq::<Seq<char>>::empty());
        assert(nonempty_pieces(Seq::<Seq<char>>::empty()) == Seq::<Seq<char>>::empty());
        assert(nonempty_pieces(seq![Seq::<char>::empty()]) =~= ps);
    } else {
        lemma_split_join(ps, sep);
        lemma_nonempty_pieces_id(ps);
    }
}

/// Each non-empty part lacks the separator and is non-empty.
pub proof fn lemma_nonempty_parts_shape(s: Seq<char>, sep: char)
    ensures
        forall|k: int|
            0 <= k < nonempty_parts(s, sep).len() ==> lacks_char(
                #[trigger] nonempty_parts(s, sep)[k],
                sep,
            ) && nonempty_parts(s, sep)[k].len() > 0,
{
    lemma_split_on_lacks(s, sep);
    lemma_nonempty_pieces_shape(split_on(s, sep), sep);
}

proof fn lemma_split_on_lacks(s: Seq<char>, sep: char)
    ensures
        forall|k: int|
            0 <= k < split_on(s, sep).len() ==> lacks_char(#[trigger] split_on(s, sep)[k], sep),
    decreases s.len(),
{
    if s.len() > 0 {
        lemma_split_on_lacks(s.drop_last(), sep);
        lemma_split_on_nonempty(s.drop_last(), sep);
        let prev = split_on(s.drop_last(), sep);
        if s.last() != sep {
            assert(lacks_char(prev.last().push(s.last()), sep));
        }
    }
}

proof fn lemma_nonempty_pieces_shape(ps: Seq<Seq<char>>, sep: char)
    requires
        forall|k: int| 0 <= k < ps.len() ==> lacks_char(#[trigger] ps[k], sep),
    ensures
        forall|k: int|
            0 <= k < nonempty_pieces(ps).len() ==> lacks_char(#[trigger] nonempty_pieces(ps)[k], sep)
                && nonempty_pieces(ps)[k].len() > 0,
    decreases ps.len(),
{
    if ps.len() > 0 {
        let front = ps.drop_last();
        assert forall|k: int| 0 <= k < front.len() implies lacks_char(#[trigger] front[k], sep) by {
            assert(front[k] == ps[k]);
        }
        lemma_nonempty_pieces_shape(front, sep);
        assert(lacks_char(ps[ps.len() - 1], sep));
        let prev = nonempty_pieces(front);
        if ps.last().len() > 0 {
            assert forall|k: int| 0 <= k < prev.push(ps.last()).len() implies lacks_char(
                #[trigger] prev.push(ps.last())[k],
                sep,
            ) && prev.push(ps.last())[k].len() > 0 by {
                if k < prev.len() {
                    assert(prev.push(ps.last())[k] == prev[k]);
                }
            }
        }
    }
}

/// Replacement introduces `c` only through `rep`.
pub proof fn lemma_replace_lacks(s: Seq<char>, pat: Seq<char>, rep: Seq<char>, c: char)
    requires
        lacks_char(s, c),
        lacks_char(rep, c),
    ensures
        lacks_char(replace_all(s, pat, rep), c),
    decreases s.len(),
{
    if pat.len() == 0 {
        if s.len() > 0 {
            lemma_replace_lacks(s.drop_first(), pat, rep, c);
        }
    } else if s.len() < pat.len() {
    } else if s.subrange(0, pat.len() as int) == pat {
        lemma_replace_lacks(s.subrange(pat.len() as int, s.len() as int), pat, rep, c);
    } else {
        lemma_replace_lacks(s.drop_first(), pat, rep, c);
    }
}

/// A join holds `c` only where a piece or the separator does.
pub proof fn lemma_join_lacks(ps: Seq<Seq<char>>, sep: Seq<char>, c: char)
    requires
        forall|k: int| 0 <= k < ps.len() ==> lacks_char(#[trigger] ps[k], c),
        lacks_char(sep, c),
    ensures
        lacks_char(join(ps, sep), c),
    decreases ps.len(),
{
    if ps.len() > 1 {
        lemma_join_lacks(ps.drop_last(), sep, c);
    }
}

/// Raising then lowering an ASCII text lowers it.
pub proof fn lemma_ascii_case_round(s: Seq<char>)
    ensures
        is_ascii_text(s) ==> is_ascii_text(ascii_uppercase(s)),
        is_ascii_text(s) ==> is_ascii_text(ascii_lowercase(s)),
        ascii_lowercase(ascii_uppercase(s)) == ascii_lowercase(s),
        ascii_lowercase(ascii_lowercase(s)) == ascii_lowercase(s),
        ascii_uppercase(s).len() == s.len(),
{
    assert forall|i: int| 0 <= i < s.len() implies ascii_lower(ascii_upper(#[trigger] s[i])) == ascii_lower(
        s[i],
    ) && ascii_lower(ascii_lower(s[i])) == ascii_lower(s[i]) && (is_ascii_char(s[i]) ==> is_ascii_char(
        ascii_upper(s[i]),
    ) && is_ascii_char(ascii_lower(s[i]))) by {
        let c = s[i];
        if 'a' <= c && c <= 'z' {
            assert(((c as int) - 32) as char as int == c as int - 32);
        }
        if 'A' <= c && c <= 'Z' {
            assert(((c as int) + 32) as char as int == c as int + 32);
        }
    }
    assert(ascii_lowercase(ascii_uppercase(s)) =~= ascii_lowercase(s));
    assert(ascii_lowercase(ascii_lowercase(s)) =~= ascii_lowercase(s));
}

/// Lowering ASCII text goes piece by piece over a concatenation.
pub proof fn lemma_ascii_lowercase_concat(a: Seq<char>, b: Seq<char>)
    ensures
        ascii_lowercase(a + b) == ascii_lowercase(a) + ascii_lowercase(b),
        is_ascii_text(a) && is_ascii_text(b) ==> is_ascii_text(a + b),
{
    assert(ascii_lowercase(a + b) =~= ascii_lowercase(a) + ascii_lowercase(b));
    if is_ascii_text(a) && is_ascii_text(b) {
        assert forall|i: int| 0 <= i < (a + b).len() implies is_ascii_char(#[trigger] (a + b)[i]) by {
            if i < a.len() {
                assert((a + b)[i] == a[i]);
            } else {
                assert((a + b)[i] == b[i - a.len()]);
            }
        }
    }
}

/// A substring of `s` is a substring of `x + s + y`.
pub proof fn lemma_substring_widen(s: Seq<char>, pat: Seq<char>, x: Seq<char>, y: Seq<char>)
    requires
        has_substring(s, pat),
    ensures
        has_substring(x + s + y, pat),
{
    let i = choose|i: int| occurs_at(s, pat, i);
    assert((x + s + y).subrange(i + x.len(), i + x.len() + pat.len()) =~= s.subrange(i, i + pat.len()));
    assert(occurs_at(x + s + y, pat, i + x.len()));
}

} // verus!

//! Character-sequence model of the string operations the dictation client
//! relies on: Unicode whitespace, trimming, splitting, line breaking, ASCII
//! case folding and decimal numbers. Each executable function is proved
//! against a spec function over `Seq<char>`.

use vstd::prelude::*;

verus! {

// ---------------------------------------------------------------------------
// Whitespace
// ---------------------------------------------------------------------------

/// `char::is_whitespace`: the Unicode `White_Space` property.
pub open spec fn is_ws(c: char) -> bool {
    let n = c as u32;
    (9 <= n && n <= 13) || n == 32 || n == 0x85 || n == 0xa0 || n == 0x1680 || (0x2000 <= n
        && n <= 0x200a) || n == 0x2028 || n == 0x2029 || n == 0x202f || n == 0x205f || n == 0x3000
}

pub fn is_whitespace(c: char) -> (b: bool)
    ensures
        b == is_ws(c),
{
    let n = c as u32;
    (9 <= n && n <= 13) || n == 32 || n == 0x85 || n == 0xa0 || n == 0x1680 || (0x2000 <= n && n
        <= 0x200a) || n == 0x2028 || n == 0x2029 || n == 0x202f || n == 0x205f || n == 0x3000
}

/// `str::trim_start`.
pub open spec fn trim_start(s: Seq<char>) -> Seq<char>
    decreases s.len(),
{
    if s.len() > 0 && is_ws(s[0]) {
        trim_start(s.drop_first())
    } else {
        s
    }
}

/// `str::trim_end`.
pub open spec fn trim_end(s: Seq<char>) -> Seq<char>
    decreases s.len(),
{
    if s.len() > 0 && is_ws(s.last()) {
        trim_end(s.drop_last())
    } else {
        s
    }
}

/// `str::trim`.
pub open spec fn trim(s: Seq<char>) -> Seq<char> {
    trim_end(trim_start(s))
}

// ---------------------------------------------------------------------------
// Splitting
// ---------------------------------------------------------------------------

/// `str::split(sep)` for a single character: the pieces between separators,
/// always at least one.
pub open spec fn split_char(s: Seq<char>, sep: char) -> Seq<Seq<char>>
    decreases s.len(),
{
    if s.len() == 0 {
        seq![Seq::<char>::empty()]
    } else {
        let prev = split_char(s.drop_last(), sep);
        if s.last() == sep {
            prev.push(Seq::<char>::empty())
        } else {
            prev.update(prev.len() - 1, prev.last().push(s.last()))
        }
    }
}

/// `str::split_whitespace`: the maximal runs of non-whitespace characters.
pub open spec fn words(s: Seq<char>) -> Seq<Seq<char>>
    decreases s.len(),
{
    if s.len() == 0 {
        Seq::<Seq<char>>::empty()
    } else {
        let prev = words(s.drop_last());
        let c = s.last();
        if is_ws(c) {
            prev
        } else if s.len() > 1 && !is_ws(s[s.len() - 2]) {
            prev.update(prev.len() - 1, prev.last().push(c))
        } else {
            prev.push(seq![c])
        }
    }
}

/// One trailing `'\r'` removed, if there is one.
pub open spec fn strip_cr(s: Seq<char>) -> Seq<char> {
    if s.len() > 0 && s.last() == '\r' {
        s.drop_last()
    } else {
        s
    }
}

/// `str::lines`: pieces ended by `"\n"` or `"\r\n"`; the final piece counts
/// only when it is not empty, and keeps a bare trailing `'\r'`.
pub open spec fn lines(s: Seq<char>) -> Seq<Seq<char>> {
    let parts = split_char(s, '\n');
    let ended = Seq::new((parts.len() - 1) as nat, |i: int| strip_cr(parts[i]));
    if parts.last().len() > 0 {
        ended.push(parts.last())
    } else {
        ended
    }
}

/// The pieces with a newline after each.
pub open spec fn terminated(ls: Seq<Seq<char>>) -> Seq<char>
    decreases ls.len(),
{
    if ls.len() == 0 {
        Seq::empty()
    } else {
        terminated(ls.drop_last()) + ls.last().push('\n')
    }
}

/// The pieces joined with `sep` between them (`[..].join(sep)`).
pub open spec fn join(parts: Seq<Seq<char>>, sep: Seq<char>) -> Seq<char>
    decreases parts.len(),
{
    if parts.len() == 0 {
        Seq::<char>::empty()
    } else if parts.len() == 1 {
        parts[0]
    } else {
        join(parts.drop_last(), sep) + sep + parts.last()
    }
}

// ---------------------------------------------------------------------------
// ASCII case
// ---------------------------------------------------------------------------

pub open spec fn is_upper_ascii(c: char) -> bool {
    65 <= (c as u32) && (c as u32) <= 90
}

pub open spec fn is_lower_ascii(c: char) -> bool {
    97 <= (c as u32) && (c as u32) <= 122
}

/// `char::to_ascii_lowercase`.
pub open spec fn lower_char(c: char) -> char {
    if is_upper_ascii(c) {
        ((c as u32) + 32) as char
    } else {
        c
    }
}

/// `char::to_ascii_uppercase`.
pub open spec fn upper_char(c: char) -> char {
    if is_lower_ascii(c) {
        ((c as u32) - 32) as char
    } else {
        c
    }
}

pub open spec fn ascii_lower(s: Seq<char>) -> Seq<char> {
    s.map_values(|c: char| lower_char(c))
}

pub open spec fn ascii_upper(s: Seq<char>) -> Seq<char> {
    s.map_values(|c: char| upper_char(c))
}

/// `str::eq_ignore_ascii_case`.
pub open spec fn eq_ignore_case(a: Seq<char>, b: Seq<char>) -> bool {
    ascii_lower(a) == ascii_lower(b)
}

pub open spec fn all_ascii(s: Seq<char>) -> bool {
    forall|i: int| 0 <= i < s.len() ==> (s[i] as u32) < 128
}

/// What `str::to_lowercase` returns for `s` (full Unicode case mapping).
pub uninterp spec fn unicode_lowercase(s: Seq<char>) -> Seq<char>;

/// `str::to_lowercase`: ASCII text is lowercased letter by letter, as the
/// Unicode case mapping does for ASCII; other text is left to the name
/// `unicode_lowercase`.
pub open spec fn lowercase(s: Seq<char>) -> Seq<char> {
    if all_ascii(s) {
        ascii_lower(s)
    } else {
        unicode_lowercase(s)
    }
}

/// Calls `str::to_lowercase`. Its result is named `unicode_lowercase`; the one
/// fact stated beside the name is that ASCII text is lowercased letter by
/// letter (`'A'..='Z'` to `'a'..='z'`), as the Unicode case mapping does for
/// ASCII. Nothing is said of other characters.
#[verifier::external_body]
pub(crate) fn to_lowercase(s: &str) -> (r: String)
    ensures
        r@ == unicode_lowercase(s@),
        r@ == lowercase(s@),
{
    s.to_lowercase()
}

pub fn to_ascii_lowercase(c: char) -> (r: char)
    ensures
        r == lower_char(c),
{
    if 'A' <= c && c <= 'Z' {
        let n = c as u8;
        let r = (n + 32) as char;
        assert(r == lower_char(c)) by {
            assert(r as u32 == c as u32 + 32);
        };
        r
    } else {
        c
    }
}


pub fn to_ascii_uppercase(c: char) -> (r: char)
    ensures
        r == upper_char(c),
{
    if 'a' <= c && c <= 'z' {
        let n = c as u8;
        let r = (n - 32) as char;
        assert(r as u32 == c as u32 - 32);
        r
    } else {
        c
    }
}

pub fn ascii_lowercase_of(v: &[char]) -> (r: Vec<char>)
    ensures
        r@ == ascii_lower(v@),
{
    let mut r: Vec<char> = Vec::new();
    for i in 0..v.len()
        invariant
            r@ == ascii_lower(v@.take(i as int)),
    {
        r.push(to_ascii_lowercase(v[i]));
        assert(ascii_lower(v@.take(i as int + 1)) =~= ascii_lower(v@.take(i as int)).push(
            lower_char(v@[i as int]),
        ));
    }
    assert(v@.take(v.len() as int) =~= v@);
    r
}

pub fn ascii_uppercase_of(v: &[char]) -> (r: Vec<char>)
    ensures
        r@ == ascii_upper(v@),
{
    let mut r: Vec<char> = Vec::new();
    for i in 0..v.len()
        invariant
            r@ == ascii_upper(v@.take(i as int)),
    {
        r.push(to_ascii_uppercase(v[i]));
        assert(ascii_upper(v@.take(i as int + 1)) =~= ascii_upper(v@.take(i as int)).push(
            upper_char(v@[i as int]),
        ));
    }
    assert(v@.take(v.len() as int) =~= v@);
    r
}

/// `str::eq_ignore_ascii_case`.
pub fn eq_ignore_ascii_case(a: &[char], b: &[char]) -> (r: bool)
    ensures
        r == eq_ignore_case(a@, b@),
{
    if a.len() != b.len() {
        assert(ascii_lower(a@).len() != ascii_lower(b@).len());
        return false;
    }
    for i in 0..a.len()
        invariant
            a.len() == b.len(),
            forall|j: int| 0 <= j < i ==> lower_char(#[trigger] a@[j]) == lower_char(b@[j]),
    {
        if to_ascii_lowercase(a[i]) != to_ascii_lowercase(b[i]) {
            assert(ascii_lower(a@)[i as int] != ascii_lower(b@)[i as int]);
            return false;
        }
    }
    assert(ascii_lower(a@) =~= ascii_lower(b@));
    true
}

// ---------------------------------------------------------------------------
// Conversions between `str`, `String` and `Vec<char>`
// ---------------------------------------------------------------------------

/// Calls `String::push`: appends one character.
#[verifier::external_body]
pub(crate) fn push_char(s: &mut String, c: char)
    ensures
        final(s)@ == old(s)@.push(c),
{
    s.push(c);
}

/// The characters of `s`, in order.
pub fn chars_of(s: &str) -> (v: Vec<char>)
    ensures
        v@ == s@,
{
    let mut v: Vec<char> = Vec::new();
    for c in it: s.chars()
        invariant
            v@ == it.seq().take(it.index() as int),
            it.seq() == s@,
    {
        v.push(c);
    }
    v
}

/// Appends the given characters to `s`.
pub fn push_chars(s: &mut String, v: &[char])
    ensures
        final(s)@ == old(s)@ + v@,
{
    let ghost start = s@;
    for i in 0..v.len()
        invariant
            s@ == start + v@.take(i as int),
    {
        push_char(s, v[i]);
        assert(v@.take(i as int + 1) =~= v@.take(i as int).push(v@[i as int]));
    }
    assert(v@.take(v.len() as int) =~= v@);
}

/// Appends the characters of `t` to `s`.
pub fn push_str(s: &mut String, t: &str)
    ensures
        final(s)@ == old(s)@ + t@,
{
    let v = chars_of(t);
    push_chars(s, v.as_slice());
}

/// A `String` holding exactly the given characters.
pub fn string_of(v: &[char]) -> (s: String)
    ensures
        s@ == v@,
{
    let mut s = String::new();
    push_chars(&mut s, v);
    assert(Seq::<char>::empty() + v@ =~= v@);
    s
}

/// Whether the characters equal those of the literal `lit`.
pub fn eq_str(v: &[char], lit: &str) -> (r: bool)
    ensures
        r == (v@ == lit@),
{
    let w = chars_of(lit);
    if v.len() != w.len() {
        return false;
    }
    for i in 0..v.len()
        invariant
            v.len() == w.len(),
            w@ == lit@,
            forall|j: int| 0 <= j < i ==> v@[j] == w@[j],
    {
        if v[i] != w[i] {
            return false;
        }
    }
    assert(v@ =~= w@);
    true
}

// ---------------------------------------------------------------------------
// Trimming
// ---------------------------------------------------------------------------

/// `str::trim_start`.
pub fn trim_start_of(v: &[char]) -> (r: Vec<char>)
    ensures
        r@ == trim_start(v@),
{
    let mut i: usize = 0;
    assert(v@.skip(0) =~= v@);
    while i < v.len() && is_whitespace(v[i])
        invariant
            i <= v.len(),
            trim_start(v@) == trim_start(v@.skip(i as int)),
        decreases v.len() - i,
    {
        assert(v@.skip(i as int).drop_first() =~= v@.skip(i as int + 1));
        i = i + 1;
    }
    slice_from(v, i)
}

/// `str::trim_end`.
pub fn trim_end_of(v: &[char]) -> (r: Vec<char>)
    ensures
        r@ == trim_end(v@),
{
    let mut j: usize = v.len();
    assert(v@.take(j as int) =~= v@);
    while j > 0 && is_whitespace(v[j - 1])
        invariant
            j <= v.len(),
            trim_end(v@) == trim_end(v@.take(j as int)),
        decreases j,
    {
        assert(v@.take(j as int).drop_last() =~= v@.take(j as int - 1));
        j = j - 1;
    }
    slice_to(v, j)
}

/// `str::trim`.
pub fn trim_of(v: &[char]) -> (r: Vec<char>)
    ensures
        r@ == trim(v@),
{
    let a = trim_start_of(v);
    trim_end_of(a.as_slice())
}

/// `v[i..]` as a new vector.
pub fn slice_from(v: &[char], i: usize) -> (r: Vec<char>)
    requires
        i <= v.len(),
    ensures
        r@ == v@.skip(i as int),
{
    let mut r: Vec<char> = Vec::new();
    let mut k: usize = i;
    while k < v.len()
        invariant
            i <= k <= v.len(),
            r@ == v@.subrange(i as int, k as int),
        decreases v.len() - k,
    {
        r.push(v[k]);
        assert(v@.subrange(i as int, k as int + 1) =~= v@.subrange(i as int, k as int).push(
            v@[k as int],
        ));
        k = k + 1;
    }
    assert(v@.subrange(i as int, v.len() as int) =~= v@.skip(i as int));
    r
}

/// `v[..j]` as a new vector.
pub fn slice_to(v: &[char], j: usize) -> (r: Vec<char>)
    requires
        j <= v.len(),
    ensures
        r@ == v@.take(j as int),
{
    let mut r: Vec<char> = Vec::new();
    let mut k: usize = 0;
    while k < j
        invariant
            k <= j <= v.len(),
            r@ == v@.take(k as int),
        decreases j - k,
    {
        r.push(v[k]);
        assert(v@.take(k as int + 1) =~= v@.take(k as int).push(v@[k as int]));
        k = k + 1;
    }
    r
}


// ---------------------------------------------------------------------------
// Searching
// ---------------------------------------------------------------------------

/// Whether `pat` occurs in `s` starting at `i`.
pub open spec fn occurs_at(s: Seq<char>, pat: Seq<char>, i: int) -> bool {
    0 <= i && i + pat.len() <= s.len() && s.subrange(i, i + pat.len()) == pat
}

/// The first position at or after `i` where `pat` occurs.
pub open spec fn find_from(s: Seq<char>, pat: Seq<char>, i: int) -> Option<int>
    decreases s.len() + 1 - i,
{
    if i < 0 || i + pat.len() > s.len() {
        None
    } else if s.subrange(i, i + pat.len()) == pat {
        Some(i)
    } else {
        find_from(s, pat, i + 1)
    }
}

/// `str::find`: the first position where `pat` occurs.
pub open spec fn find(s: Seq<char>, pat: Seq<char>) -> Option<int> {
    find_from(s, pat, 0)
}

/// `str::split_once(pat)`.
pub open spec fn split_once(s: Seq<char>, pat: Seq<char>) -> Option<(Seq<char>, Seq<char>)> {
    match find(s, pat) {
        Some(i) => Some((s.take(i), s.skip(i + pat.len()))),
        None => None,
    }
}

/// The last position of `c` in `s`.
pub open spec fn rfind_char(s: Seq<char>, c: char) -> Option<int>
    decreases s.len(),
{
    if s.len() == 0 {
        None
    } else if s.last() == c {
        Some(s.len() - 1)
    } else {
        rfind_char(s.drop_last(), c)
    }
}

/// `str::rsplit_once(c)` for a character.
pub open spec fn rsplit_once(s: Seq<char>, c: char) -> Option<(Seq<char>, Seq<char>)> {
    match rfind_char(s, c) {
        Some(i) => Some((s.take(i), s.skip(i + 1))),
        None => None,
    }
}

/// `str::strip_prefix`.
pub open spec fn strip_prefix(s: Seq<char>, p: Seq<char>) -> Option<Seq<char>> {
    if p.len() <= s.len() && s.take(p.len() as int) == p {
        Some(s.skip(p.len() as int))
    } else {
        None
    }
}

/// `str::replace(pat, rep)` for a non-empty `pat`: every non-overlapping
/// occurrence, leftmost first, replaced.
pub open spec fn replace_all(s: Seq<char>, pat: Seq<char>, rep: Seq<char>) -> Seq<char>
    decreases s.len(),
{
    if s.len() == 0 || pat.len() == 0 {
        s
    } else if pat.len() <= s.len() && s.take(pat.len() as int) == pat {
        rep + replace_all(s.skip(pat.len() as int), pat, rep)
    } else {
        seq![s[0]] + replace_all(s.drop_first(), pat, rep)
    }
}

/// Whether `pat` occurs in `v` at `i`.
pub fn occurs_at_exec(v: &[char], pat: &[char], i: usize) -> (r: bool)
    ensures
        r == occurs_at(v@, pat@, i as int),
{
    if i > v.len() || pat.len() > v.len() - i {
        return false;
    }
    for k in 0..pat.len()
        invariant
            i + pat.len() <= v.len(),
            forall|j: int| 0 <= j < k ==> v@[i + j] == pat@[j],
    {
        if v[i + k] != pat[k] {
            assert(v@.subrange(i as int, i + pat.len())[k as int] != pat@[k as int]);
            return false;
        }
    }
    assert(v@.subrange(i as int, i + pat.len()) =~= pat@);
    true
}

/// `str::find`.
pub fn find_exec(v: &[char], pat: &[char]) -> (r: Option<usize>)
    ensures
        match r {
            Some(i) => find(v@, pat@) == Some(i as int),
            None => find(v@, pat@) is None,
        },
{
    let mut i: usize = 0;
    while i < v.len()
        invariant
            i <= v.len(),
            find(v@, pat@) == find_from(v@, pat@, i as int),
        decreases v.len() - i,
    {
        if pat.len() > v.len() - i {
            return None;
        }
        if occurs_at_exec(v, pat, i) {
            return Some(i);
        }
        i = i + 1;
    }
    if occurs_at_exec(v, pat, i) {
        assert(v@.subrange(i as int, i + pat.len()) == pat@);
        assert(find_from(v@, pat@, i as int) == Some(i as int));
        Some(i)
    } else {
        assert(pat.len() > 0) by {
            if pat.len() == 0 {
                assert(v@.subrange(i as int, i as int) =~= pat@);
            }
        };
        None
    }
}

/// `str::split_once`.
pub fn split_once_exec(v: &[char], pat: &[char]) -> (r: Option<(Vec<char>, Vec<char>)>)
    ensures
        match r {
            Some((a, b)) => split_once(v@, pat@) == Some((a@, b@)),
            None => split_once(v@, pat@) is None,
        },
{
    match find_exec(v, pat) {
        Some(i) => {
            proof {
                lemma_find_from_bounds(v@, pat@, 0);
                assert(find_from(v@, pat@, 0) == Some(i as int));
                assert(i + pat@.len() <= v@.len());
                assert(i + pat.len() <= v.len());
            }
            Some((slice_to(v, i), slice_from(v, i + pat.len())))
        },
        None => None,
    }
}

pub proof fn lemma_find_from_bounds(s: Seq<char>, pat: Seq<char>, i: int)
    ensures
        find_from(s, pat, i) is Some ==> i <= find_from(s, pat, i)->0 && find_from(s, pat, i)->0
            + pat.len() <= s.len() && occurs_at(s, pat, find_from(s, pat, i)->0),
    decreases s.len() + 1 - i,
{
    if i < 0 || i + pat.len() > s.len() {
    } else if s.subrange(i, i + pat.len()) == pat {
    } else {
        lemma_find_from_bounds(s, pat, i + 1);
    }
}

/// `str::rfind` for a character.
pub fn rfind_char_exec(v: &[char], c: char) -> (r: Option<usize>)
    ensures
        match r {
            Some(i) => rfind_char(v@, c) == Some(i as int) && i < v.len(),
            None => rfind_char(v@, c) is None,
        },
{
    let mut j: usize = v.len();
    assert(v@.take(j as int) =~= v@);
    while j > 0
        invariant
            j <= v.len(),
            rfind_char(v@, c) == rfind_char(v@.take(j as int), c),
        decreases j,
    {
        if v[j - 1] == c {
            return Some(j - 1);
        }
        assert(v@.take(j as int).drop_last() =~= v@.take(j as int - 1));
        j = j - 1;
    }
    None
}

/// `str::rsplit_once` for a character.
pub fn rsplit_once_exec(v: &[char], c: char) -> (r: Option<(Vec<char>, Vec<char>)>)
    ensures
        match r {
            Some((a, b)) => rsplit_once(v@, c) == Some((a@, b@)),
            None => rsplit_once(v@, c) is None,
        },
{
    match rfind_char_exec(v, c) {
        Some(i) => Some((slice_to(v, i), slice_from(v, i + 1))),
        None => None,
    }
}

/// `str::starts_with`.
pub fn starts_with_exec(v: &[char], p: &[char]) -> (r: bool)
    ensures
        r == (p.len() <= v.len() && v@.take(p.len() as int) == p@),
{
    let r = occurs_at_exec(v, p, 0);
    assert(r ==> v@.subrange(0, p.len() as int) =~= v@.take(p.len() as int));
    assert((p.len() <= v.len() && v@.take(p.len() as int) == p@) ==> v@.subrange(
        0,
        p.len() as int,
    ) =~= p@);
    r
}

/// `str::strip_prefix`.
pub fn strip_prefix_exec(v: &[char], p: &[char]) -> (r: Option<Vec<char>>)
    ensures
        match r {
            Some(a) => strip_prefix(v@, p@) == Some(a@),
            None => strip_prefix(v@, p@) is None,
        },
{
    if starts_with_exec(v, p) {
        Some(slice_from(v, p.len()))
    } else {
        None
    }
}

/// `str::replace` with a non-empty pattern.
pub fn replace_exec(v: &[char], pat: &[char], rep: &[char]) -> (r: Vec<char>)
    ensures
        r@ == replace_all(v@, pat@, rep@),
{
    let mut out: Vec<char> = Vec::new();
    let mut i: usize = 0;
    assert(v@.skip(0) =~= v@);
    while i < v.len()
        invariant
            i <= v.len(),
            out@ + replace_all(v@.skip(i as int), pat@, rep@) == replace_all(v@, pat@, rep@),
        decreases v.len() - i,
    {
        let ghost rest = v@.skip(i as int);
        if pat.len() > 0 && occurs_at_exec(v, pat, i) {
            assert(rest.take(pat.len() as int) =~= pat@);
            assert(rest.skip(pat.len() as int) =~= v@.skip(i + pat.len()));
            let mut k: usize = 0;
            let ghost before = out@;
            while k < rep.len()
                invariant
                    k <= rep.len(),
                    out@ == before + rep@.take(k as int),
                decreases rep.len() - k,
            {
                out.push(rep[k]);
                assert(rep@.take(k as int + 1) =~= rep@.take(k as int).push(rep@[k as int]));
                k = k + 1;
            }
            assert(rep@.take(rep.len() as int) =~= rep@);
            assert(out@ + replace_all(v@.skip(i + pat.len()), pat@, rep@) =~= before + (rep@
                + replace_all(rest.skip(pat.len() as int), pat@, rep@)));
            i = i + pat.len();
        } else {
            assert(pat.len() > 0 ==> !(pat.len() <= rest.len() && rest.take(pat.len() as int)
                == pat@)) by {
                if pat.len() > 0 && pat.len() <= rest.len() && rest.take(pat.len() as int)
                    == pat@ {
                    assert(v@.subrange(i as int, i + pat.len()) =~= rest.take(pat.len() as int));
                }
            };
            assert(rest.drop_first() =~= v@.skip(i + 1));
            let ghost before = out@;
            out.push(v[i]);
            assert(out@ + replace_all(v@.skip(i + 1), pat@, rep@) =~= before + (seq![rest[0]]
                + replace_all(rest.drop_first(), pat@, rep@)));
            i = i + 1;
        }
    }
    assert(v@.skip(v.len() as int) =~= Seq::<char>::empty());
    assert(out@ + Seq::<char>::empty() =~= out@);
    out
}


// ---------------------------------------------------------------------------
// Splitting, executable
// ---------------------------------------------------------------------------

/// The views of a vector of character vectors.
pub open spec fn views(v: Seq<Vec<char>>) -> Seq<Seq<char>> {
    v.map_values(|x: Vec<char>| x@)
}

pub proof fn lemma_views_push(v: Seq<Vec<char>>, x: Vec<char>)
    ensures
        views(v.push(x)) == views(v).push(x@),
{
    assert(views(v.push(x)) =~= views(v).push(x@));
}

/// Splitting after appending a separator-free word, then a separator: the
/// word closes the open piece, and a new empty piece opens.
pub proof fn lemma_split_append(t: Seq<char>, p: Seq<Seq<char>>, w: Seq<char>, sep: char)
    requires
        split_char(t, sep) == p.push(Seq::<char>::empty()),
        forall|i: int| 0 <= i < w.len() ==> w[i] != sep,
    ensures
        split_char(t + w, sep) == p.push(w),
        split_char((t + w).push(sep), sep) == p.push(w).push(Seq::<char>::empty()),
    decreases w.len(),
{
    if w.len() == 0 {
        assert(t + w =~= t);
        assert(Seq::<char>::empty() =~= w);
    } else {
        let w0 = w.drop_last();
        lemma_split_append(t, p, w0, sep);
        assert((t + w).drop_last() =~= t + w0);
        assert((t + w).last() == w.last());
        assert(w0.push(w.last()) =~= w);
        assert(p.push(w0).update(p.len() as int, w0.push(w.last())) =~= p.push(w));
    }
    let tw = (t + w).push(sep);
    assert(tw.drop_last() =~= t + w);
}

/// No piece of a split holds the separator.
pub proof fn lemma_split_pieces_free(s: Seq<char>, sep: char)
    ensures
        forall|i: int, j: int|
            0 <= i < split_char(s, sep).len() && 0 <= j < split_char(s, sep)[i].len()
                ==> #[trigger] split_char(s, sep)[i][j] != sep,
    decreases s.len(),
{
    if s.len() > 0 {
        lemma_split_pieces_free(s.drop_last(), sep);
        lemma_split_char_nonempty(s.drop_last(), sep);
        let prev = split_char(s.drop_last(), sep);
        if s.last() != sep {
            assert forall|i: int, j: int|
                0 <= i < split_char(s, sep).len() && 0 <= j < split_char(s, sep)[i].len()
                    implies #[trigger] split_char(s, sep)[i][j] != sep by {
                if i == prev.len() - 1 {
                    if j < prev.last().len() {
                        assert(split_char(s, sep)[i][j] == prev[i][j]);
                    }
                } else {
                    assert(split_char(s, sep)[i] == prev[i]);
                }
            };
        } else {
            assert forall|i: int, j: int|
                0 <= i < split_char(s, sep).len() && 0 <= j < split_char(s, sep)[i].len()
                    implies #[trigger] split_char(s, sep)[i][j] != sep by {
                assert(i < prev.len());
                assert(split_char(s, sep)[i] == prev[i]);
            };
        }
    }
}

/// Lines with a newline after each read back as those lines, each without
/// one trailing carriage return, when none holds a newline.
pub proof fn lemma_lines_of_terminated(ls: Seq<Seq<char>>)
    requires
        forall|i: int, j: int| 0 <= i < ls.len() && 0 <= j < ls[i].len() ==> #[trigger] ls[i][j] != '\n',
    ensures
        split_char(terminated(ls), '\n') == ls.push(Seq::<char>::empty()),
        lines(terminated(ls)) == ls.map_values(|l: Seq<char>| strip_cr(l)),
    decreases ls.len(),
{
    if ls.len() == 0 {
        assert(ls.push(Seq::<char>::empty()) =~= seq![Seq::<char>::empty()]);
    } else {
        let p = ls.drop_last();
        assert forall|i: int, j: int| 0 <= i < p.len() && 0 <= j < p[i].len() implies #[trigger] p[i][j] != '\n' by {
            assert(p[i] == ls[i]);
        };
        lemma_lines_of_terminated(p);
        let w = ls.last();
        assert(forall|j: int| 0 <= j < w.len() ==> w[j] != '\n') by {
            assert forall|j: int| 0 <= j < w.len() implies w[j] != '\n' by {
                assert(w[j] == ls[ls.len() - 1][j]);
            };
        };
        lemma_split_append(terminated(p), p, w, '\n');
        assert(terminated(ls) == (terminated(p) + w).push('\n')) by {
            assert(terminated(p) + w.push('\n') =~= (terminated(p) + w).push('\n'));
        };
        assert(p.push(w) =~= ls);
    }
    let parts = split_char(terminated(ls), '\n');
    assert(parts.last().len() == 0);
    assert(lines(terminated(ls)) =~= ls.map_values(|l: Seq<char>| strip_cr(l)));
}

pub proof fn lemma_split_char_nonempty(s: Seq<char>, sep: char)
    ensures
        split_char(s, sep).len() >= 1,
    decreases s.len(),
{
    if s.len() > 0 {
        lemma_split_char_nonempty(s.drop_last(), sep);
    }
}

/// `str::split(sep)` for a character.
pub fn split_char_of(v: &[char], sep: char) -> (r: Vec<Vec<char>>)
    ensures
        views(r@) == split_char(v@, sep),
{
    let mut parts: Vec<Vec<char>> = Vec::new();
    let mut cur: Vec<char> = Vec::new();
    assert(views(parts@).push(cur@) =~= split_char(v@.take(0), sep));
    for i in 0..v.len()
        invariant
            views(parts@).push(cur@) == split_char(v@.take(i as int), sep),
    {
        let c = v[i];
        let ghost pre = v@.take(i as int + 1);
        assert(pre.drop_last() =~= v@.take(i as int));
        proof {
            lemma_split_char_nonempty(v@.take(i as int), sep);
        }
        if c == sep {
            let ghost old_parts = parts@;
            parts.push(cur);
            cur = Vec::new();
            proof {
                lemma_views_push(old_parts, old_parts.last());
            }
            assert(views(parts@) =~= views(old_parts).push(parts@.last()@));
            assert(views(parts@).push(cur@) =~= split_char(pre, sep));
        } else {
            cur.push(c);
            assert(views(parts@).push(cur@) =~= split_char(pre, sep));
        }
    }
    assert(v@.take(v.len() as int) =~= v@);
    let ghost old_parts = parts@;
    parts.push(cur);
    assert(views(parts@) =~= views(old_parts).push(cur@));
    parts
}

pub proof fn lemma_words_nonempty(s: Seq<char>)
    requires
        s.len() > 0,
        !is_ws(s.last()),
    ensures
        words(s).len() >= 1,
    decreases s.len(),
{
    if s.len() > 1 && !is_ws(s[s.len() - 2]) {
        lemma_words_nonempty(s.drop_last());
    }
}

/// After a whitespace character, the words of what follows are words of
/// their own.
pub proof fn lemma_words_after_ws(x: Seq<char>, b: Seq<char>)
    requires
        x.len() > 0,
        is_ws(x.last()),
    ensures
        words(x + b) == words(x) + words(b),
    decreases b.len(),
{
    let s = x + b;
    if b.len() == 0 {
        assert(s =~= x);
        assert(words(x) + words(b) =~= words(x));
    } else {
        let c = b.last();
        assert(s.drop_last() =~= x + b.drop_last());
        assert(s.last() == c);
        lemma_words_after_ws(x, b.drop_last());
        let prev = words(x) + words(b.drop_last());
        if is_ws(c) {
        } else if b.len() > 1 && !is_ws(b[b.len() - 2]) {
            assert(s[s.len() - 2] == b[b.len() - 2]);
            lemma_words_nonempty(b.drop_last());
            assert(words(s) =~= words(x) + words(b));
        } else {
            if b.len() > 1 {
                assert(s[s.len() - 2] == b[b.len() - 2]);
            } else {
                assert(s[s.len() - 2] == x.last());
                assert(b.drop_last() =~= Seq::<char>::empty());
            }
            assert(words(s) =~= words(x) + words(b));
        }
    }
}

/// A text has no words exactly when it is all whitespace.
pub proof fn lemma_words_none(s: Seq<char>)
    ensures
        words(s).len() == 0 <==> forall|i: int| 0 <= i < s.len() ==> is_ws(#[trigger] s[i]),
    decreases s.len(),
{
    if s.len() > 0 {
        lemma_words_none(s.drop_last());
        if is_ws(s.last()) {
            assert forall|i: int| 0 <= i < s.len() && (forall|j: int|
                0 <= j < s.len() - 1 ==> is_ws(#[trigger] s.drop_last()[j])) implies is_ws(
                #[trigger] s[i],
            ) by {
                if i < s.len() - 1 {
                    assert(s.drop_last()[i] == s[i]);
                }
            };
            assert((forall|i: int| 0 <= i < s.len() ==> is_ws(#[trigger] s[i])) ==> (forall|j: int|
                0 <= j < s.len() - 1 ==> is_ws(#[trigger] s.drop_last()[j]))) by {
                assert forall|j: int| (forall|i: int| 0 <= i < s.len() ==> is_ws(#[trigger] s[i]))
                    && 0 <= j < s.len() - 1 implies is_ws(#[trigger] s.drop_last()[j]) by {
                    assert(s.drop_last()[j] == s[j]);
                };
            };
        } else {
            lemma_words_nonempty(s);
            assert(!is_ws(s[s.len() - 1]));
        }
    }
}

/// `trim_start` leaves nothing exactly when the text is all whitespace.
pub proof fn lemma_trim_start_none(s: Seq<char>)
    ensures
        trim_start(s).len() == 0 <==> forall|i: int| 0 <= i < s.len() ==> is_ws(#[trigger] s[i]),
        trim_start(s).len() > 0 ==> !is_ws(trim_start(s)[0]),
    decreases s.len(),
{
    if s.len() > 0 && is_ws(s[0]) {
        lemma_trim_start_none(s.drop_first());
        assert forall|i: int| 0 <= i < s.len() && (forall|j: int|
            0 <= j < s.len() - 1 ==> is_ws(#[trigger] s.drop_first()[j])) implies is_ws(
            #[trigger] s[i],
        ) by {
            if i > 0 {
                assert(s.drop_first()[i - 1] == s[i]);
            }
        };
        assert((forall|i: int| 0 <= i < s.len() ==> is_ws(#[trigger] s[i])) ==> (forall|j: int|
            0 <= j < s.len() - 1 ==> is_ws(#[trigger] s.drop_first()[j]))) by {
            assert forall|j: int| (forall|i: int| 0 <= i < s.len() ==> is_ws(#[trigger] s[i])) && 0
                <= j < s.len() - 1 implies is_ws(#[trigger] s.drop_first()[j]) by {
                assert(s.drop_first()[j] == s[j + 1]);
            };
        };
    } else if s.len() > 0 {
        assert(!is_ws(s[0]));
    }
}

/// `trim_end` leaves nothing exactly when the text is all whitespace.
pub proof fn lemma_trim_end_none(s: Seq<char>)
    ensures
        trim_end(s).len() == 0 <==> forall|i: int| 0 <= i < s.len() ==> is_ws(#[trigger] s[i]),
    decreases s.len(),
{
    if s.len() > 0 && is_ws(s.last()) {
        lemma_trim_end_none(s.drop_last());
        assert forall|i: int| 0 <= i < s.len() && (forall|j: int|
            0 <= j < s.len() - 1 ==> is_ws(#[trigger] s.drop_last()[j])) implies is_ws(
            #[trigger] s[i],
        ) by {
            if i < s.len() - 1 {
                assert(s.drop_last()[i] == s[i]);
            }
        };
        assert((forall|i: int| 0 <= i < s.len() ==> is_ws(#[trigger] s[i])) ==> (forall|j: int|
            0 <= j < s.len() - 1 ==> is_ws(#[trigger] s.drop_last()[j]))) by {
            assert forall|j: int| (forall|i: int| 0 <= i < s.len() ==> is_ws(#[trigger] s[i])) && 0
                <= j < s.len() - 1 implies is_ws(#[trigger] s.drop_last()[j]) by {
                assert(s.drop_last()[j] == s[j]);
            };
        };
    } else if s.len() > 0 {
        assert(!is_ws(s[s.len() - 1]));
    }
}

/// A text has no words exactly when it trims to nothing.
pub proof fn lemma_words_none_iff_blank(s: Seq<char>)
    ensures
        words(s).len() == 0 <==> trim(s).len() == 0,
{
    lemma_words_none(s);
    lemma_trim_start_none(s);
    lemma_trim_end_none(trim_start(s));
    if trim_start(s).len() > 0 {
        assert(!is_ws(trim_start(s)[0]));
    }
}

/// Trimming ASCII text leaves ASCII text, and lowercasing it is ASCII
/// lowercasing, which a second time changes nothing.
pub proof fn lemma_trim_ascii(s: Seq<char>)
    requires
        all_ascii(s),
    ensures
        all_ascii(trim(s)),
        lowercase(trim(s)) == ascii_lower(trim(s)),
        all_ascii(ascii_lower(trim(s))),
        lowercase(ascii_lower(trim(s))) == ascii_lower(trim(s)),
{
    lemma_trim_start_ascii(s);
    lemma_trim_end_ascii(trim_start(s));
    let t = trim(s);
    let l = ascii_lower(t);
    assert forall|i: int| 0 <= i < l.len() implies (l[i] as u32) < 128 by {
        assert(l[i] == lower_char(t[i]));
    };
    assert(ascii_lower(l) =~= l) by {
        assert forall|i: int| 0 <= i < l.len() implies lower_char(l[i]) == l[i] by {
            assert(l[i] == lower_char(t[i]));
        };
    };
}

proof fn lemma_trim_start_ascii(s: Seq<char>)
    requires
        all_ascii(s),
    ensures
        all_ascii(trim_start(s)),
    decreases s.len(),
{
    if s.len() > 0 && is_ws(s[0]) {
        assert forall|i: int| 0 <= i < s.drop_first().len() implies (s.drop_first()[i] as u32) < 128 by {
            assert(s.drop_first()[i] == s[i + 1]);
        };
        lemma_trim_start_ascii(s.drop_first());
    }
}

proof fn lemma_trim_end_ascii(s: Seq<char>)
    requires
        all_ascii(s),
    ensures
        all_ascii(trim_end(s)),
    decreases s.len(),
{
    if s.len() > 0 && is_ws(s.last()) {
        assert forall|i: int| 0 <= i < s.drop_last().len() implies (s.drop_last()[i] as u32) < 128 by {
            assert(s.drop_last()[i] == s[i]);
        };
        lemma_trim_end_ascii(s.drop_last());
    }
}

/// `str::split_whitespace`.
pub fn words_of(v: &[char]) -> (r: Vec<Vec<char>>)
    ensures
        views(r@) == words(v@),
{
    let mut parts: Vec<Vec<char>> = Vec::new();
    let mut cur: Vec<char> = Vec::new();
    let mut in_word = false;
    assert(views(parts@) =~= words(v@.take(0)));
    for i in 0..v.len()
        invariant
            in_word ==> views(parts@).push(cur@) == words(v@.take(i as int)) && i > 0 && !is_ws(
                v@[i - 1],
            ),
            !in_word ==> views(parts@) == words(v@.take(i as int)) && (i == 0 || is_ws(
                v@[i - 1],
            )) && cur@.len() == 0,
    {
        let c = v[i];
        let ghost pre = v@.take(i as int + 1);
        assert(pre.drop_last() =~= v@.take(i as int));
        assert(pre.last() == c);
        if is_whitespace(c) {
            if in_word {
                let ghost old_parts = parts@;
                parts.push(cur);
                cur = Vec::new();
                in_word = false;
                assert(views(parts@) =~= views(old_parts).push(parts@.last()@));
            }
        } else {
            if in_word {
                assert(pre[pre.len() - 2] == v@[i - 1]);
                proof {
                    lemma_words_nonempty(v@.take(i as int));
                }
                cur.push(c);
                assert(views(parts@).push(cur@) =~= words(pre));
            } else {
                assert(i > 0 ==> pre[pre.len() - 2] == v@[i - 1]);
                cur.push(c);
                assert(cur@ =~= seq![c]);
                assert(views(parts@).push(cur@) =~= words(pre));
            }
            in_word = true;
        }
    }
    assert(v@.take(v.len() as int) =~= v@);
    if in_word {
        let ghost old_parts = parts@;
        parts.push(cur);
        assert(views(parts@) =~= views(old_parts).push(cur@));
    }
    parts
}

/// `str::lines`.
pub fn lines_of(v: &[char]) -> (r: Vec<Vec<char>>)
    ensures
        views(r@) == lines(v@),
{
    let parts = split_char_of(v, '\n');
    proof {
        lemma_split_char_nonempty(v@, '\n');
    }
    let n = parts.len();
    let ghost ended = Seq::new((n - 1) as nat, |i: int| strip_cr(views(parts@)[i]));
    let mut out: Vec<Vec<char>> = Vec::new();
    for i in 0..n - 1
        invariant
            n == parts.len(),
            n >= 1,
            views(parts@) == split_char(v@, '\n'),
            ended == Seq::new((n - 1) as nat, |i: int| strip_cr(views(parts@)[i])),
            views(out@) == ended.take(i as int),
    {
        let p = &parts[i];
        let mut piece = p.clone();
        if piece.len() > 0 && piece[piece.len() - 1] == '\r' {
            piece.pop();
        }
        assert(piece@ == strip_cr(views(parts@)[i as int]));
        let ghost old_out = out@;
        out.push(piece);
        assert(views(out@) =~= views(old_out).push(piece@));
        assert(ended.take(i as int + 1) =~= ended.take(i as int).push(ended[i as int]));
    }
    assert(ended.take((n - 1) as int) =~= ended);
    let last = &parts[n - 1];
    if last.len() > 0 {
        let ghost old_out = out@;
        out.push(last.clone());
        assert(views(out@) =~= views(old_out).push(views(parts@).last()));
    }
    out
}

/// `[..].join(sep)`.
pub fn join_of(parts: &Vec<Vec<char>>, sep: &[char]) -> (r: Vec<char>)
    ensures
        r@ == join(views(parts@), sep@),
{
    let mut out: Vec<char> = Vec::new();
    for i in 0..parts.len()
        invariant
            out@ == join(views(parts@).take(i as int), sep@),
    {
        let ghost pre = views(parts@).take(i as int + 1);
        assert(pre.drop_last() =~= views(parts@).take(i as int));
        if i > 0 {
            append_chars(&mut out, sep);
        }
        append_chars(&mut out, parts[i].as_slice());
        assert(pre.len() == 1 ==> pre[0] == parts@[0]@);
        assert(i == 0 ==> out@ =~= join(pre, sep@));
        assert(i > 0 ==> out@ =~= join(pre, sep@));
    }
    assert(views(parts@).take(parts.len() as int) =~= views(parts@));
    out
}

/// Appends characters to a character vector.
pub fn append_chars(out: &mut Vec<char>, v: &[char])
    ensures
        final(out)@ == old(out)@ + v@,
{
    let ghost start = out@;
    for i in 0..v.len()
        invariant
            out@ == start + v@.take(i as int),
    {
        out.push(v[i]);
        assert(v@.take(i as int + 1) =~= v@.take(i as int).push(v@[i as int]));
    }
    assert(v@.take(v.len() as int) =~= v@);
}


// ---------------------------------------------------------------------------
// Decimal numbers
// ---------------------------------------------------------------------------

pub open spec fn digit_char(d: nat) -> char {
    (48 + d) as char
}

/// The decimal digits of `n`, most significant first, as `u64::to_string`
/// writes them.
pub open spec fn decimal(n: nat) -> Seq<char>
    decreases n,
{
    if n < 10 {
        seq![digit_char(n)]
    } else {
        decimal(n / 10).push(digit_char(n % 10))
    }
}

/// Appends the decimal digits of `n`.
pub fn push_decimal(s: &mut String, n: u64)
    ensures
        final(s)@ == old(s)@ + decimal(n as nat),
    decreases n,
{
    if n >= 10 {
        push_decimal(s, n / 10);
    }
    let d = (n % 10) as u8;
    let c = (48u8 + d) as char;
    assert(c == digit_char((n % 10) as nat));
    push_char(s, c);
    assert(s@ =~= old(s)@ + decimal(n as nat));
}

pub open spec fn is_digit(c: char) -> bool {
    48 <= (c as u32) && (c as u32) <= 57
}

/// The value of a run of decimal digits.
pub open spec fn digits_value(d: Seq<char>) -> nat
    decreases d.len(),
{
    if d.len() == 0 {
        0
    } else {
        digits_value(d.drop_last()) * 10 + ((d.last() as u32) - 48) as nat
    }
}

/// `str::parse::<u16>`: an optional `'+'`, then one or more ASCII digits
/// whose value fits in 16 bits (leading zeros allowed).
pub open spec fn parse_u16_spec(s: Seq<char>) -> Option<u16> {
    digits_u16(unsigned_digits(s))
}

/// The digits part of an unsigned number: `s` without one leading `'+'`.
pub open spec fn unsigned_digits(s: Seq<char>) -> Seq<char> {
    if s.len() > 0 && s[0] == '+' {
        s.drop_first()
    } else {
        s
    }
}

pub open spec fn all_digits(d: Seq<char>) -> bool {
    forall|i: int| 0 <= i < d.len() ==> is_digit(#[trigger] d[i])
}

/// A non-empty run of digits whose value fits in 16 bits.
pub open spec fn digits_u16(d: Seq<char>) -> Option<u16> {
    if d.len() > 0 && all_digits(d) && digits_value(d) <= 65535 {
        Some(digits_value(d) as u16)
    } else {
        None
    }
}

pub proof fn lemma_digits_value_prefix(d: Seq<char>, i: int, j: int)
    requires
        0 <= i <= j <= d.len(),
        forall|k: int| 0 <= k < d.len() ==> is_digit(#[trigger] d[k]),
    ensures
        digits_value(d.take(i)) <= digits_value(d.take(j)),
    decreases j - i,
{
    if i < j {
        lemma_digits_value_prefix(d, i, j - 1);
        assert(d.take(j).drop_last() =~= d.take(j - 1));
    }
}

pub proof fn lemma_digits_value_step(d: Seq<char>, k: int)
    requires
        0 <= k < d.len(),
    ensures
        digits_value(d.take(k + 1)) == digits_value(d.take(k)) * 10 + ((d[k] as u32) - 48) as nat,
{
    assert(d.take(k + 1).drop_last() =~= d.take(k));
}

/// `str::parse::<u16>`, as `Option`.
pub fn parse_u16(v: &[char]) -> (r: Option<u16>)
    ensures
        r == parse_u16_spec(v@),
{
    let start: usize = if v.len() > 0 && v[0] == '+' {
        1
    } else {
        0
    };
    let ghost d = v@.skip(start as int);
    assert(d =~= unsigned_digits(v@));
    if start >= v.len() {
        return None;
    }
    let mut acc: u32 = 0;
    let mut i: usize = start;
    assert(d.take(0) =~= Seq::<char>::empty());
    while i < v.len()
        invariant
            start <= i <= v.len(),
            d == unsigned_digits(v@),
            d.len() == v.len() - start,
            forall|k: int| 0 <= k < d.len() ==> #[trigger] d[k] == v@[k + start],
            acc == digits_value(d.take(i - start)),
            acc <= 65535,
            forall|k: int| 0 <= k < i - start ==> is_digit(#[trigger] d[k]),
        decreases v.len() - i,
    {
        let c = v[i];
        let ghost k = i - start;
        assert(d[k] == c);
        let code = c as u32;
        if code < 48 || code > 57 {
            assert(!all_digits(d));
            return None;
        }
        let digit = code - 48;
        proof {
            lemma_digits_value_step(d, k);
        }
        if acc * 10 + digit > 65535 {
            proof {
                if all_digits(d) {
                    lemma_digits_value_prefix(d, k + 1, d.len() as int);
                    assert(d.take(d.len() as int) =~= d);
                }
            }
            return None;
        }
        acc = acc * 10 + digit;
        i = i + 1;
    }
    assert(d.take(d.len() as int) =~= d);
    Some(acc as u16)
}

} // verus!

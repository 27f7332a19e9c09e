//! Character-level helpers shared by the scanner, the filters and the UI state:
//! whitespace trimming, substring search, ASCII case folding and the Unix path
//! rules for a file's name and extension.

use vstd::prelude::*;

verus! {

// ------------------------------------------------------------------ conversions

/// The characters of `s`, in order.
pub fn to_chars(s: &str) -> (r: Vec<char>)
    ensures
        r@ == s@,
{
    let mut r: Vec<char> = Vec::new();
    for c in it: s.chars()
        invariant
            it.seq() == s@,
            r@ == it.seq().take(it.index() as int),
    {
        r.push(c);
    }
    r
}

/// `String::push`: appends one character.
#[verifier::external_body]
pub(crate) fn string_push(s: &mut String, c: char)
    ensures
        final(s)@ == old(s)@.push(c),
{
    s.push(c);
}

/// `String::pop`: removes the last character, if any.
#[verifier::external_body]
pub(crate) fn string_pop(s: &mut String)
    ensures
        final(s)@ == if old(s)@.len() > 0 {
            old(s)@.drop_last()
        } else {
            old(s)@
        },
{
    s.pop();
}

/// What `Path::parent` gives for a path (`None` at a root or for an empty path).
pub uninterp spec fn path_parent(p: Seq<char>) -> Option<Seq<char>>;

/// Calls `std::path::Path::parent` and converts the result to a string.
/// Claimed: the result depends on the path alone (it is named `path_parent`).
#[verifier::external_body]
pub(crate) fn parent_dir(p: &str) -> (r: Option<String>)
    ensures
        match r {
            Some(q) => path_parent(p@) == Some(q@),
            None => path_parent(p@) is None,
        },
{
    match std::path::Path::new(p).parent() {
        Some(q) => Some(q.to_string_lossy().into_owned()),
        None => None,
    }
}

/// The string made of the characters of `v`, in order.
pub fn from_chars(v: &[char]) -> (r: String)
    ensures
        r@ == v@,
{
    let mut r = String::new();
    let mut i: usize = 0;
    while i < v.len()
        invariant
            i <= v.len(),
            r@ == v@.take(i as int),
        decreases v.len() - i,
    {
        string_push(&mut r, v[i]);
        assert(v@.take(i as int).push(v@[i as int]) =~= v@.take(i + 1));
        i += 1;
    }
    assert(v@.take(v.len() as int) =~= v@);
    r
}

/// Characters `from..to` of `v` as a string.
pub fn string_of_range(v: &[char], from: usize, to: usize) -> (r: String)
    requires
        from <= to <= v.len(),
    ensures
        r@ == v@.subrange(from as int, to as int),
{
    let mut r = String::new();
    let mut i: usize = from;
    while i < to
        invariant
            from <= i <= to <= v.len(),
            r@ == v@.subrange(from as int, i as int),
        decreases to - i,
    {
        string_push(&mut r, v[i]);
        assert(v@.subrange(from as int, i as int).push(v@[i as int]) =~= v@.subrange(
            from as int,
            i + 1,
        ));
        i += 1;
    }
    r
}

/// Character-wise equality of two strings.
pub fn str_eq(a: &str, b: &str) -> (r: bool)
    ensures
        r == (a@ == b@),
{
    let x = to_chars(a);
    let y = to_chars(b);
    chars_eq(&x, &y)
}

/// Element-wise equality of two character slices.
pub fn chars_eq(x: &[char], y: &[char]) -> (r: bool)
    ensures
        r == (x@ == y@),
{
    if x.len() != y.len() {
        return false;
    }
    let mut i: usize = 0;
    while i < x.len()
        invariant
            x.len() == y.len(),
            i <= x.len(),
            forall|j: int| 0 <= j < i ==> x@[j] == y@[j],
        decreases x.len() - i,
    {
        if x[i] != y[i] {
            return false;
        }
        i += 1;
    }
    assert(x@ =~= y@);
    true
}

// ------------------------------------------------------------------ whitespace

/// `char::is_whitespace`: the Unicode `White_Space` property.
pub open spec fn is_ws(c: char) -> bool {
    ||| '\u{9}' <= c <= '\u{d}'
    ||| c == ' '
    ||| c == '\u{85}'
    ||| c == '\u{a0}'
    ||| c == '\u{1680}'
    ||| '\u{2000}' <= c <= '\u{200a}'
    ||| c == '\u{2028}'
    ||| c == '\u{2029}'
    ||| c == '\u{202f}'
    ||| c == '\u{205f}'
    ||| c == '\u{3000}'
}

pub fn char_is_ws(c: char) -> (r: bool)
    ensures
        r == is_ws(c),
{
    ('\u{9}' <= c && c <= '\u{d}') || c == ' ' || c == '\u{85}' || c == '\u{a0}' || c
        == '\u{1680}' || ('\u{2000}' <= c && c <= '\u{200a}') || c == '\u{2028}' || c
        == '\u{2029}' || c == '\u{202f}' || c == '\u{205f}' || c == '\u{3000}'
}

/// Index of the first non-whitespace character at or after `i` (or the length).
pub open spec fn skip_ws_from(s: Seq<char>, i: int) -> int
    decreases s.len() - i,
{
    if 0 <= i < s.len() && is_ws(s[i]) {
        skip_ws_from(s, i + 1)
    } else {
        i
    }
}

/// End of `s[..j]` once trailing whitespace is dropped.
pub open spec fn skip_ws_back(s: Seq<char>, j: int) -> int
    decreases j,
{
    if 0 < j <= s.len() && is_ws(s[j - 1]) {
        skip_ws_back(s, j - 1)
    } else {
        j
    }
}

/// `str::trim`: `s` without leading and trailing whitespace.
pub open spec fn trim(s: Seq<char>) -> Seq<char> {
    let lo = skip_ws_from(s, 0);
    let hi = skip_ws_back(s, s.len() as int);
    if hi <= lo {
        Seq::empty()
    } else {
        s.subrange(lo, hi)
    }
}

proof fn lemma_skip_ws_from_bounds(s: Seq<char>, i: int)
    requires
        0 <= i <= s.len(),
    ensures
        i <= skip_ws_from(s, i) <= s.len(),
    decreases s.len() - i,
{
    if i < s.len() && is_ws(s[i]) {
        lemma_skip_ws_from_bounds(s, i + 1);
    }
}

proof fn lemma_skip_ws_back_bounds(s: Seq<char>, j: int)
    requires
        0 <= j <= s.len(),
    ensures
        0 <= skip_ws_back(s, j) <= j,
    decreases j,
{
    if 0 < j && is_ws(s[j - 1]) {
        lemma_skip_ws_back_bounds(s, j - 1);
    }
}

/// The bounds `lo..hi` of the trimmed part of `v` (`hi <= lo` when it is empty).
pub fn trim_bounds(v: &[char]) -> (r: (usize, usize))
    ensures
        r.0 == skip_ws_from(v@, 0),
        r.1 == skip_ws_back(v@, v@.len() as int),
        r.0 <= v.len(),
        r.1 <= v.len(),
{
    let mut lo: usize = 0;
    while lo < v.len() && char_is_ws(v[lo])
        invariant
            lo <= v.len(),
            skip_ws_from(v@, 0) == skip_ws_from(v@, lo as int),
        decreases v.len() - lo,
    {
        lo += 1;
    }
    let mut hi: usize = v.len();
    while hi > 0 && char_is_ws(v[hi - 1])
        invariant
            hi <= v.len(),
            skip_ws_back(v@, v@.len() as int) == skip_ws_back(v@, hi as int),
        decreases hi,
    {
        hi -= 1;
    }
    (lo, hi)
}

/// `str::trim` on a character slice.
pub fn trim_chars(v: &[char]) -> (r: Vec<char>)
    ensures
        r@ == trim(v@),
{
    let (lo, hi) = trim_bounds(v);
    let mut r: Vec<char> = Vec::new();
    if hi <= lo {
        assert(r@ =~= trim(v@));
        return r;
    }
    let mut i: usize = lo;
    while i < hi
        invariant
            lo <= i <= hi <= v.len(),
            r@ == v@.subrange(lo as int, i as int),
        decreases hi - i,
    {
        r.push(v[i]);
        assert(v@.subrange(lo as int, i as int).push(v@[i as int]) =~= v@.subrange(
            lo as int,
            i + 1,
        ));
        i += 1;
    }
    r
}

/// `str::trim` on a string.
pub fn trim_str(s: &str) -> (r: String)
    ensures
        r@ == trim(s@),
{
    let v = to_chars(s);
    let t = trim_chars(&v);
    from_chars(&t)
}

// ------------------------------------------------------------------ case folding

/// What `str::to_lowercase` returns for a string: the Unicode lowercase mapping.
pub uninterp spec fn lowercase_of(s: Seq<char>) -> Seq<char>;

/// Calls `str::to_lowercase`. Claimed: the result depends on the characters of `s`
/// alone (it is named `lowercase_of`), and the empty text stays empty (each
/// character is replaced by its lowercase mapping); the Unicode case tables are
/// not restated.
#[verifier::external_body]
pub(crate) fn lowercase(s: &str) -> (r: String)
    ensures
        r@ == lowercase_of(s@),
        s@.len() == 0 ==> r@.len() == 0,
{
    s.to_lowercase()
}

/// `char::to_ascii_lowercase`.
pub open spec fn ascii_lower(c: char) -> char {
    if 'A' <= c <= 'Z' {
        ((c as u32) + 32) as char
    } else {
        c
    }
}

pub fn char_ascii_lower(c: char) -> (r: char)
    ensures
        r == ascii_lower(c),
{
    if 'A' <= c && c <= 'Z' {
        let b: u8 = (c as u8) + 32;
        assert(b as u32 == (c as u32) + 32);
        b as char
    } else {
        c
    }
}

/// `c.is_ascii_digit()`.
pub open spec fn is_digit(c: char) -> bool {
    '0' <= c <= '9'
}

/// `c.is_ascii_alphabetic()`.
pub open spec fn is_ascii_alpha(c: char) -> bool {
    ('a' <= c <= 'z') || ('A' <= c <= 'Z')
}

/// What `char::is_alphabetic` returns: whether `c` has the Unicode
/// `Alphabetic` property.
pub uninterp spec fn alphabetic(c: char) -> bool;

/// Calls `char::is_alphabetic`. Claimed: the answer depends on `c` alone (it is
/// named `alphabetic`); the Unicode property tables are not restated.
#[verifier::external_body]
pub(crate) fn char_is_alphabetic(c: char) -> (r: bool)
    ensures
        r == alphabetic(c),
{
    c.is_alphabetic()
}

/// Index of the first alphabetic character of `s` at or after `i` (or the length).
pub open spec fn first_alphabetic_from(s: Seq<char>, i: int) -> int
    decreases s.len() - i,
{
    if i < 0 || i >= s.len() {
        s.len() as int
    } else if alphabetic(s[i]) {
        i
    } else {
        first_alphabetic_from(s, i + 1)
    }
}

/// `str::find(char::is_alphabetic)` as a character index, the length where
/// there is none.
pub fn first_alphabetic(v: &[char]) -> (r: usize)
    ensures
        r == first_alphabetic_from(v@, 0),
        r <= v.len(),
{
    let mut i: usize = 0;
    while i < v.len() && !char_is_alphabetic(v[i])
        invariant
            i <= v.len(),
            first_alphabetic_from(v@, 0) == first_alphabetic_from(v@, i as int),
        decreases v.len() - i,
    {
        i += 1;
    }
    i
}

// ------------------------------------------------------------------ search

/// `needle` occurs in `hay` starting at `i`.
pub open spec fn occurs_at(hay: Seq<char>, needle: Seq<char>, i: int) -> bool {
    0 <= i && i + needle.len() <= hay.len() && hay.subrange(i, i + needle.len()) == needle
}

/// `str::contains` with a string pattern.
pub open spec fn contains_seq(hay: Seq<char>, needle: Seq<char>) -> bool {
    exists|i: int| #[trigger] occurs_at(hay, needle, i)
}

fn occurs_at_exec(hay: &[char], needle: &[char], i: usize) -> (r: bool)
    requires
        i + needle.len() <= hay.len(),
    ensures
        r == occurs_at(hay@, needle@, i as int),
{
    let mut j: usize = 0;
    while j < needle.len()
        invariant
            i + needle.len() <= hay.len(),
            j <= needle.len(),
            forall|k: int| 0 <= k < j ==> hay@[i + k] == needle@[k],
        decreases needle.len() - j,
    {
        if hay[i + j] != needle[j] {
            assert(hay@.subrange(i as int, i + needle.len())[j as int] != needle@[j as int]);
            return false;
        }
        j += 1;
    }
    assert(hay@.subrange(i as int, i + needle.len()) =~= needle@);
    true
}

/// Does `needle` occur in `hay`?
pub fn contains_chars(hay: &[char], needle: &[char]) -> (r: bool)
    ensures
        r == contains_seq(hay@, needle@),
{
    if needle.len() > hay.len() {
        assert forall|i: int| !occurs_at(hay@, needle@, i) by {}
        return false;
    }
    if needle.len() == 0 {
        assert(occurs_at(hay@, needle@, 0)) by {
            assert(hay@.subrange(0, 0) =~= needle@);
        }
        return true;
    }
    let last = hay.len() - needle.len();
    let mut i: usize = 0;
    while i <= last
        invariant
            last + needle.len() == hay.len(),
            needle.len() > 0,
            i <= last + 1,
            forall|k: int| 0 <= k < i ==> !occurs_at(hay@, needle@, k),
        decreases last + 1 - i,
    {
        if occurs_at_exec(hay, needle, i) {
            return true;
        }
        i += 1;
    }
    assert forall|k: int| !occurs_at(hay@, needle@, k) by {
        if 0 <= k < i {
        }
    }
    false
}

// ------------------------------------------------------------------ paths

/// Start of the path segment that ends at `j` (just after the previous `/`).
pub open spec fn segment_start(s: Seq<char>, j: int) -> int
    decreases j,
{
    if j <= 0 || j > s.len() {
        0
    } else if s[j - 1] == '/' {
        j
    } else {
        segment_start(s, j - 1)
    }
}

/// The last component of a Unix path as `Path::components` yields it: trailing
/// slashes and `.` segments are skipped, an empty result means the path ends at
/// the root or is empty.
pub open spec fn last_component(s: Seq<char>) -> Seq<char>
    decreases s.len(),
{
    if s.len() == 0 {
        Seq::empty()
    } else if s.last() == '/' {
        last_component(s.drop_last())
    } else {
        let k = segment_start(s, s.len() as int);
        proof {
            lemma_segment_start_bounds(s, s.len() - 1);
        }
        if s.subrange(k, s.len() as int) == seq!['.'] {
            last_component(s.subrange(0, k))
        } else {
            s.subrange(k, s.len() as int)
        }
    }
}

/// `Path::file_name` of a Unix path (empty when there is none, as for `..`).
pub open spec fn file_name_of(path: Seq<char>) -> Seq<char> {
    let c = last_component(path);
    if c == seq!['.', '.'] {
        Seq::empty()
    } else {
        c
    }
}

proof fn lemma_segment_start_after_slash(s: Seq<char>, a: int, j: int)
    requires
        0 <= a <= j <= s.len(),
        a == 0 || s[a - 1] == '/',
        forall|i: int| a <= i < j ==> s[i] != '/',
    ensures
        segment_start(s, j) == a,
    decreases j,
{
    if j > a {
        lemma_segment_start_after_slash(s, a, j - 1);
    }
}

/// The file name of a path is its last component: a name without `/` that is
/// neither `.` nor `..` is the file name of itself and of any directory path
/// joined to it with `/`, and a trailing `/` does not change the file name.
pub proof fn law_file_name_is_last_component(dir: Seq<char>, name: Seq<char>)
    requires
        name.len() > 0,
        forall|i: int| 0 <= i < name.len() ==> name[i] != '/',
        name != seq!['.'],
        name != seq!['.', '.'],
    ensures
        file_name_of(name) == name,
        file_name_of(dir + seq!['/'] + name) == name,
        file_name_of(dir + seq!['/'] + name + seq!['/']) == name,
{
    let p = dir + seq!['/'] + name;
    assert(p.len() == dir.len() + 1 + name.len());
    assert forall|i: int| dir.len() + 1 <= i < p.len() implies p[i] != '/' by {
        assert(p[i] == name[i - dir.len() - 1]);
    }
    assert(p[dir.len() as int] == '/');
    lemma_segment_start_after_slash(p, dir.len() + 1 as int, p.len() as int);
    assert(p.last() == name.last());
    assert(p.subrange(dir.len() + 1 as int, p.len() as int) =~= name);
    lemma_segment_start_after_slash(name, 0, name.len() as int);
    assert(name.subrange(0, name.len() as int) =~= name);
    assert(name.last() != '/');
    let q = p + seq!['/'];
    assert(q.last() == '/');
    assert(q.drop_last() =~= p);
}

pub proof fn lemma_segment_start_bounds(s: Seq<char>, j: int)
    requires
        0 <= j <= s.len(),
    ensures
        0 <= segment_start(s, j) <= j,
        forall|k: int| segment_start(s, j) <= k < j ==> s[k] != '/',
        segment_start(s, j) > 0 ==> s[segment_start(s, j) - 1] == '/',
    decreases j,
{
    if j > 0 && s[j - 1] != '/' {
        lemma_segment_start_bounds(s, j - 1);
    }
}

fn segment_start_exec(v: &[char], j: usize) -> (r: usize)
    requires
        j <= v.len(),
    ensures
        r == segment_start(v@, j as int),
        r <= j,
{
    let mut k: usize = j;
    while k > 0 && v[k - 1] != '/'
        invariant
            k <= j <= v.len(),
            segment_start(v@, j as int) == segment_start(v@, k as int),
        decreases k,
    {
        k -= 1;
    }
    proof {
        lemma_segment_start_bounds(v@, k as int);
    }
    k
}

/// The bounds of `last_component(v[..n])` inside `v`.
fn last_component_bounds(v: &[char], n: usize) -> (r: (usize, usize))
    requires
        n <= v.len(),
    ensures
        r.0 <= r.1 <= n,
        v@.subrange(r.0 as int, r.1 as int) == last_component(v@.subrange(0, n as int)),
    decreases n,
{
    if n == 0 {
        assert(v@.subrange(0, 0) =~= Seq::<char>::empty());
        return (0, 0);
    }
    if v[n - 1] == '/' {
        assert(v@.subrange(0, n as int).drop_last() =~= v@.subrange(0, n - 1));
        return last_component_bounds(v, n - 1);
    }
    let k = segment_start_exec(v, n);
    let ghost s = v@.subrange(0, n as int);
    proof {
        lemma_segment_start_bounds(v@, n as int);
        assert forall|j: int| 0 <= j <= n implies segment_start(s, j) == segment_start(
            v@,
            j,
        ) by {
            lemma_segment_start_same(s, v@, j, n as int);
        }
        assert(s.subrange(k as int, n as int) =~= v@.subrange(k as int, n as int));
    }
    if n - k == 1 && v[k] == '.' {
        proof {
            assert(s.subrange(k as int, s.len() as int) =~= seq!['.']);
            assert(s.subrange(0, k as int) =~= v@.subrange(0, k as int));
        }
        last_component_bounds(v, k)
    } else {
        proof {
            if s.subrange(k as int, s.len() as int) == seq!['.'] {
                assert(s.subrange(k as int, s.len() as int).len() == 1);
                assert(s.subrange(k as int, s.len() as int)[0] == '.');
            }
        }
        (k, n)
    }
}

proof fn lemma_segment_start_same(s: Seq<char>, t: Seq<char>, j: int, n: int)
    requires
        0 <= j <= n <= t.len(),
        s == t.subrange(0, n),
    ensures
        segment_start(s, j) == segment_start(t, j),
    decreases j,
{
    if j > 0 && t[j - 1] != '/' {
        lemma_segment_start_same(s, t, j - 1, n);
    }
}

/// `Path::file_name` of a Unix path, as characters.
pub fn file_name_chars(v: &[char]) -> (r: Vec<char>)
    ensures
        r@ == file_name_of(v@),
{
    let (a, b) = last_component_bounds(v, v.len());
    assert(v@.subrange(0, v.len() as int) =~= v@);
    let mut r: Vec<char> = Vec::new();
    if b - a == 2 && v[a] == '.' && v[a + 1] == '.' {
        assert(v@.subrange(a as int, b as int) =~= seq!['.', '.']);
        assert(r@ =~= file_name_of(v@));
        return r;
    }
    let mut i: usize = a;
    while i < b
        invariant
            a <= i <= b <= v.len(),
            r@ == v@.subrange(a as int, i as int),
        decreases b - i,
    {
        r.push(v[i]);
        assert(v@.subrange(a as int, i as int).push(v@[i as int]) =~= v@.subrange(
            a as int,
            i + 1,
        ));
        i += 1;
    }
    proof {
        let c = v@.subrange(a as int, b as int);
        if c == seq!['.', '.'] {
            assert(c.len() == 2 && c[0] == '.' && c[1] == '.');
        }
    }
    r
}

/// Index just past the last `.` in `s[..j]`, or 0 when there is none.
pub open spec fn after_last_dot(s: Seq<char>, j: int) -> int
    decreases j,
{
    if j <= 0 || j > s.len() {
        0
    } else if s[j - 1] == '.' {
        j
    } else {
        after_last_dot(s, j - 1)
    }
}

/// `Path::extension` given the file name: the text after the final `.`, if there
/// is a `.` that is not the first character.
pub open spec fn extension_of_name(name: Seq<char>) -> Option<Seq<char>> {
    let p = after_last_dot(name, name.len() as int);
    if p <= 1 {
        None
    } else {
        Some(name.subrange(p, name.len() as int))
    }
}

/// `Path::extension` of a Unix path.
pub open spec fn extension_of(path: Seq<char>) -> Option<Seq<char>> {
    extension_of_name(file_name_of(path))
}

proof fn lemma_after_last_dot_at(s: Seq<char>, a: int, j: int)
    requires
        0 <= a <= j <= s.len(),
        a == 0 || s[a - 1] == '.',
        forall|i: int| a <= i < j ==> s[i] != '.',
    ensures
        after_last_dot(s, j) == a,
    decreases j,
{
    if j > a {
        lemma_after_last_dot_at(s, a, j - 1);
    }
}

/// The extension is the text after the last `.` of the file name, provided
/// that `.` is not the name's first character: a non-empty stem, a `.` and a
/// text without `.` give that text; a name with no `.` after its first
/// character (such as `notes` or `.bashrc`) has none.
pub proof fn law_extension_after_last_dot(stem: Seq<char>, ext: Seq<char>, name: Seq<char>)
    requires
        stem.len() > 0,
        forall|i: int| 0 <= i < ext.len() ==> ext[i] != '.',
    ensures
        extension_of_name(stem + seq!['.'] + ext) == Some(ext),
        (forall|i: int| 1 <= i < name.len() ==> name[i] != '.') ==> extension_of_name(name) is None,
{
    let n = stem + seq!['.'] + ext;
    assert(n[stem.len() as int] == '.');
    assert forall|i: int| stem.len() + 1 <= i < n.len() implies n[i] != '.' by {
        assert(n[i] == ext[i - stem.len() - 1]);
    }
    lemma_after_last_dot_at(n, stem.len() + 1 as int, n.len() as int);
    assert(n.subrange(stem.len() + 1 as int, n.len() as int) =~= ext);
    if forall|i: int| 1 <= i < name.len() ==> name[i] != '.' {
        if name.len() > 0 && name[0] == '.' {
            lemma_after_last_dot_at(name, 1, name.len() as int);
        } else {
            lemma_after_last_dot_at(name, 0, name.len() as int);
        }
    }
}

proof fn lemma_after_last_dot_bounds(s: Seq<char>, j: int)
    requires
        0 <= j <= s.len(),
    ensures
        0 <= after_last_dot(s, j) <= j,
    decreases j,
{
    if j > 0 && s[j - 1] != '.' {
        lemma_after_last_dot_bounds(s, j - 1);
    }
}

/// `Path::extension` given the file name, as characters.
pub fn extension_chars(name: &[char]) -> (r: Option<Vec<char>>)
    ensures
        match r {
            Some(e) => extension_of_name(name@) == Some(e@),
            None => extension_of_name(name@) is None,
        },
{
    let mut p: usize = name.len();
    while p > 0 && name[p - 1] != '.'
        invariant
            p <= name.len(),
            after_last_dot(name@, name@.len() as int) == after_last_dot(name@, p as int),
        decreases p,
    {
        p -= 1;
    }
    if p <= 1 {
        return None;
    }
    let mut e: Vec<char> = Vec::new();
    let mut i: usize = p;
    while i < name.len()
        invariant
            p <= i <= name.len(),
            e@ == name@.subrange(p as int, i as int),
        decreases name.len() - i,
    {
        e.push(name[i]);
        assert(name@.subrange(p as int, i as int).push(name@[i as int]) =~= name@.subrange(
            p as int,
            i + 1,
        ));
        i += 1;
    }
    Some(e)
}


// ------------------------------------------------------------------ splitting

/// `s` cut at every `c` (`str::split`): one piece more than there are `c`s.
pub open spec fn split_on(s: Seq<char>, c: char) -> Seq<Seq<char>>
    decreases s.len(),
{
    if s.len() == 0 {
        seq![Seq::empty()]
    } else {
        let r = split_on(s.drop_last(), c);
        if s.last() == c {
            r.push(Seq::empty())
        } else {
            r.update(r.len() - 1, r.last().push(s.last()))
        }
    }
}

pub(crate) proof fn lemma_split_nonempty(s: Seq<char>, c: char)
    ensures
        split_on(s, c).len() >= 1,
    decreases s.len(),
{
    if s.len() > 0 {
        lemma_split_nonempty(s.drop_last(), c);
    }
}

pub open spec fn chars_views(v: Seq<Vec<char>>) -> Seq<Seq<char>> {
    v.map_values(|x: Vec<char>| x@)
}

/// `v` cut at every `sep`.
pub fn split_chars(v: &Vec<char>, sep: char) -> (r: Vec<Vec<char>>)
    ensures
        chars_views(r@) == split_on(v@, sep),
{
    let mut pieces: Vec<Vec<char>> = Vec::new();
    let mut cur: Vec<char> = Vec::new();
    let mut i: usize = 0;
    assert(chars_views(pieces@).push(cur@) =~= split_on(v@.take(0), sep));
    while i < v.len()
        invariant
            i <= v@.len(),
            chars_views(pieces@).push(cur@) == split_on(v@.take(i as int), sep),
        decreases v@.len() - i,
    {
        let ghost t = v@.take(i + 1);
        assert(t.drop_last() =~= v@.take(i as int));
        assert(t.last() == v@[i as int]);
        let ghost before = chars_views(pieces@).push(cur@);
        if v[i] == sep {
            pieces.push(cur);
            cur = Vec::new();
            assert(chars_views(pieces@).push(cur@) =~= before.push(Seq::empty()));
        } else {
            cur.push(v[i]);
            assert(chars_views(pieces@).push(cur@) =~= before.update(before.len() - 1, before.last().push(v@[i as int])));
        }
        i += 1;
    }
    assert(v@.take(v@.len() as int) =~= v@);
    let ghost before = chars_views(pieces@).push(cur@);
    pieces.push(cur);
    assert(chars_views(pieces@) =~= before);
    pieces
}


// ------------------------------------------------------------------ path order

/// The key of one `/`-separated piece of a path: nothing for an empty piece or
/// `.`, the parent marker for `..`, else the name; each closed by a NUL.
pub open spec fn piece_key(piece: Seq<char>) -> Seq<char> {
    if piece.len() == 0 || piece == seq!['.'] {
        Seq::empty()
    } else if piece == seq!['.', '.'] {
        seq!['\u{3}', '\u{0}']
    } else {
        seq!['\u{4}'] + piece + seq!['\u{0}']
    }
}

pub open spec fn pieces_key(pieces: Seq<Seq<char>>) -> Seq<char>
    decreases pieces.len(),
{
    if pieces.len() == 0 {
        Seq::empty()
    } else {
        pieces_key(pieces.drop_last()) + piece_key(pieces.last())
    }
}

/// The text by which paths are ordered as `Path` orders them: component by
/// component, a root before a leading `.`, before `..`, before names, and
/// names by character; each component closed by a NUL, so that a path sorts
/// before the paths below it.
pub open spec fn path_key(p: Seq<char>) -> Seq<char> {
    let pieces = split_on(p, '/');
    let head = if p.len() > 0 && p[0] == '/' {
        seq!['\u{1}', '\u{0}']
    } else if pieces[0] == seq!['.'] {
        seq!['\u{2}', '\u{0}']
    } else {
        Seq::empty()
    };
    head + pieces_key(pieces)
}

fn append_chars(out: &mut Vec<char>, v: &Vec<char>)
    ensures
        final(out)@ == old(out)@ + v@,
{
    let mut i: usize = 0;
    while i < v.len()
        invariant
            i <= v@.len(),
            out@ == old(out)@ + v@.take(i as int),
        decreases v@.len() - i,
    {
        out.push(v[i]);
        assert(v@.take(i + 1) =~= v@.take(i as int).push(v@[i as int]));
        i += 1;
    }
    assert(v@.take(v@.len() as int) =~= v@);
}

/// The ordering key of the path `p`.
pub fn path_key_chars(p: &str) -> (r: Vec<char>)
    ensures
        r@ == path_key(p@),
{
    let v = to_chars(p);
    let pieces = split_chars(&v, '/');
    let ghost pv = chars_views(pieces@);
    proof {
        lemma_split_nonempty(p@, '/');
    }
    let mut out: Vec<char> = Vec::new();
    if v.len() > 0 && v[0] == '/' {
        out.push('\u{1}');
        out.push('\u{0}');
    } else if pieces[0].len() == 1 && pieces[0][0] == '.' {
        out.push('\u{2}');
        out.push('\u{0}');
        assert(pv[0] =~= seq!['.']);
    } else {
        assert(pv[0] != seq!['.']);
    }
    let ghost head = out@;
    assert(pv.take(0) =~= Seq::<Seq<char>>::empty());
    assert(out@ =~= head + pieces_key(pv.take(0)));
    let mut k: usize = 0;
    while k < pieces.len()
        invariant
            k <= pieces@.len(),
            pv == chars_views(pieces@),
            out@ == head + pieces_key(pv.take(k as int)),
        decreases pieces@.len() - k,
    {
        let piece = &pieces[k];
        assert(pv[k as int] == piece@);
        assert(pv.take(k + 1).drop_last() =~= pv.take(k as int));
        let ghost before = out@;
        if piece.len() == 0 || (piece.len() == 1 && piece[0] == '.') {
            if piece.len() == 1 {
                assert(piece@ =~= seq!['.']);
            }
            assert(piece_key(piece@) =~= Seq::<char>::empty());
        } else if piece.len() == 2 && piece[0] == '.' && piece[1] == '.' {
            assert(piece@ =~= seq!['.', '.']);
            out.push('\u{3}');
            out.push('\u{0}');
        } else {
            assert(piece@ != seq!['.']);
            assert(piece@ != seq!['.', '.']);
            out.push('\u{4}');
            append_chars(&mut out, piece);
            out.push('\u{0}');
        }
        assert(out@ =~= before + piece_key(piece@));
        k += 1;
    }
    assert(pv.take(pieces@.len() as int) =~= pv);
    out
}
} // verus!

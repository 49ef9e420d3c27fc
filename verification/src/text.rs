//! Text primitives shared by the chat, comparison and quiz logic: characters
//! of a string, Unicode whitespace, word splitting, trimming, substring search,
//! joining, decimal rendering, UTF-8 byte length and code-point order.
use vstd::prelude::*;
use vstd::utf8::*;

verus! {

// ---------------------------------------------------------------------------
// Outside behaviour: std functions whose results are named, not restated.
// ---------------------------------------------------------------------------

/// What `str::to_lowercase` returns for a string: the Unicode lowercase mapping
/// of the whole string (context-sensitive rules included).
pub uninterp spec fn spec_to_lowercase(s: Seq<char>) -> Seq<char>;

/// What `format!("{:?}", items)` writes for a slice of strings.
pub uninterp spec fn spec_debug_strings(items: Seq<Seq<char>>) -> Seq<char>;

/// Trusted: `str::to_lowercase`. Claims only that the result is the value of
/// `spec_to_lowercase` on the argument's characters (a function of the
/// argument alone); the Unicode case tables themselves are not restated.
#[verifier::external_body]
pub(crate) fn to_lowercase(s: &str) -> (r: String)
    ensures
        r@ == spec_to_lowercase(s@),
{
    s.to_lowercase()
}

/// Trusted: `String::push`. Claims that the character is appended at the end.
#[verifier::external_body]
pub(crate) fn push_char(s: &mut String, c: char)
    ensures
        final(s)@ == old(s)@.push(c),
{
    s.push(c)
}

/// Trusted: the `Debug` rendering of a slice of strings (`format!("{:?}", ..)`).
/// Claims only that the result is `spec_debug_strings` of the strings'
/// characters; the escaping rules of `Debug` are not restated.
#[verifier::external_body]
pub(crate) fn debug_strings(items: &[String]) -> (r: String)
    ensures
        r@ == spec_debug_strings(items@.map_values(|x: String| x@)),
{
    format!("{:?}", items)
}

// ---------------------------------------------------------------------------
// Characters and strings
// ---------------------------------------------------------------------------

/// The characters of an optional string.
pub open spec fn opt_chars(o: Option<String>) -> Option<Seq<char>> {
    match o {
        Some(s) => Some(s@),
        None => None,
    }
}

/// The characters of a string slice, in order.
pub fn chars_of(s: &str) -> (r: Vec<char>)
    ensures
        r@ == s@,
{
    let mut r: Vec<char> = Vec::new();
    for c in it: s.chars()
        invariant
            r@ == it.seq().take(it.index() as int),
            it.seq() == s@,
    {
        r.push(c);
    }
    r
}

/// Appends every character of `cs` to `s`.
pub fn push_chars(s: &mut String, cs: &Vec<char>)
    ensures
        final(s)@ == old(s)@ + cs@,
{
    let n = cs.len();
    for i in 0..n
        invariant
            n == cs@.len(),
            s@ == old(s)@ + cs@.take(i as int),
    {
        push_char(s, cs[i]);
        assert(cs@.take(i + 1) =~= cs@.take(i as int).push(cs@[i as int]));
    }
    assert(cs@.take(n as int) =~= cs@);
}

/// A `String` holding exactly the given characters.
pub fn string_of(cs: &Vec<char>) -> (r: String)
    ensures
        r@ == cs@,
{
    let mut s = String::new();
    push_chars(&mut s, cs);
    s
}

/// A `String` copy of a string slice.
pub fn owned(s: &str) -> (r: String)
    ensures
        r@ == s@,
{
    s.to_owned()
}

/// Character-wise equality of two character vectors.
pub fn chars_eq(a: &Vec<char>, b: &Vec<char>) -> (r: bool)
    ensures
        r == (a@ == b@),
{
    if a.len() != b.len() {
        return false;
    }
    let n = a.len();
    for i in 0..n
        invariant
            n == a@.len(),
            n == b@.len(),
            a@.take(i as int) == b@.take(i as int),
    {
        if a[i] != b[i] {
            assert(a@[i as int] != b@[i as int]);
            return false;
        }
        assert(a@.take(i + 1) =~= a@.take(i as int).push(a@[i as int]));
        assert(b@.take(i + 1) =~= b@.take(i as int).push(b@[i as int]));
    }
    assert(a@.take(n as int) =~= a@);
    assert(b@.take(n as int) =~= b@);
    true
}

/// Whether two string slices hold the same characters.
pub fn str_eq(a: &str, b: &str) -> (r: bool)
    ensures
        r == (a@ == b@),
{
    let x = chars_of(a);
    let y = chars_of(b);
    chars_eq(&x, &y)
}

// ---------------------------------------------------------------------------
// Substrings
// ---------------------------------------------------------------------------

/// `needle` occurs in `hay` at position `i`.
pub open spec fn occurs_at(hay: Seq<char>, needle: Seq<char>, i: int) -> bool {
    0 <= i && i + needle.len() <= hay.len() && hay.subrange(i, i + needle.len()) == needle
}

/// `needle` occurs somewhere in `hay` (what `str::contains` answers).
pub open spec fn has_substring(hay: Seq<char>, needle: Seq<char>) -> bool {
    exists|i: int| occurs_at(hay, needle, i)
}

/// A text found in `m` is still found once other text surrounds `m`.
pub proof fn lemma_substring_extends(m: Seq<char>, n: Seq<char>, x: Seq<char>, y: Seq<char>)
    requires
        has_substring(m, n),
    ensures
        has_substring(x + m + y, n),
{
    let i = choose|i: int| occurs_at(m, n, i);
    let big = x + m + y;
    assert(big.subrange(i + x.len(), i + x.len() + n.len()) =~= m.subrange(i, i + n.len()));
    assert(occurs_at(big, n, i + x.len()));
}

/// What occurs in a text found in `m` occurs in `m`.
pub proof fn lemma_substring_trans(m: Seq<char>, big: Seq<char>, small: Seq<char>)
    requires
        has_substring(m, big),
        has_substring(big, small),
    ensures
        has_substring(m, small),
{
    let i = choose|i: int| occurs_at(m, big, i);
    let j = choose|j: int| occurs_at(big, small, j);
    assert(m.subrange(i + j, i + j + small.len()) =~= big.subrange(j, j + small.len()));
    assert(occurs_at(m, small, i + j));
}

/// Every text occurs in itself.
pub proof fn lemma_substring_self(n: Seq<char>)
    ensures
        has_substring(n, n),
{
    assert(n.subrange(0, n.len() as int) =~= n);
    assert(occurs_at(n, n, 0));
}

/// A run of consecutive pieces occurs in the text they end.
pub proof fn lemma_tail_pieces_occur(x: Seq<char>, a: Seq<char>, b: Seq<char>, c: Seq<char>)
    ensures
        has_substring(x + a + b + c, a + b + c),
{
    let t = a + b + c;
    let w = x + a + b + c;
    assert(w =~= x + t);
    assert(w.subrange(x.len() as int, (x.len() + t.len()) as int) =~= t);
    assert(occurs_at(w, t, x.len() as int));
}

/// What occurs in a text occurs in it with more text after.
pub proof fn lemma_substring_append(s: Seq<char>, n: Seq<char>, y: Seq<char>)
    requires
        has_substring(s, n),
    ensures
        has_substring(s + y, n),
{
    let i = choose|i: int| occurs_at(s, n, i);
    assert((s + y).subrange(i, i + n.len()) =~= s.subrange(i, i + n.len()));
    assert(occurs_at(s + y, n, i));
}

/// What occurs in a middle piece occurs in the whole text.
pub proof fn lemma_middle_piece_occurs(
    x: Seq<char>,
    a: Seq<char>,
    m: Seq<char>,
    c: Seq<char>,
    n: Seq<char>,
)
    requires
        has_substring(m, n),
    ensures
        has_substring(x + a + m + c, n),
{
    lemma_substring_extends(m, n, x + a, c);
}

/// `t` is how `s` ends.
pub open spec fn ends_with(s: Seq<char>, t: Seq<char>) -> bool {
    t.len() <= s.len() && s.subrange(s.len() - t.len(), s.len() as int) == t
}

/// Text put in front keeps the end of a text.
pub proof fn lemma_ends_with_prefix(s: Seq<char>, t: Seq<char>, x: Seq<char>)
    requires
        ends_with(s, t),
    ensures
        ends_with(x + s, t),
{
    let b = x + s;
    assert(b.subrange(b.len() - t.len(), b.len() as int) =~= s.subrange(
        s.len() - t.len(),
        s.len() as int,
    ));
}

/// Ending with `u`, which ends with `t`, ends with `t`.
pub proof fn lemma_ends_with_trans(s: Seq<char>, u: Seq<char>, t: Seq<char>)
    requires
        ends_with(s, u),
        ends_with(u, t),
    ensures
        ends_with(s, t),
{
    assert(s.subrange(s.len() - t.len(), s.len() as int) =~= u.subrange(
        u.len() - t.len(),
        u.len() as int,
    ));
}

fn occurs_at_exec(hay: &Vec<char>, needle: &Vec<char>, i: usize) -> (r: bool)
    requires
        i + needle@.len() <= hay@.len(),
    ensures
        r == occurs_at(hay@, needle@, i as int),
{
    let m = needle.len();
    let n = hay.len();
    for k in 0..m
        invariant
            m == needle@.len(),
            n == hay@.len(),
            i + m <= n,
            forall|j: int| 0 <= j < k ==> hay@[i + j] == needle@[j],
    {
        if hay[i + k] != needle[k] {
            assert(hay@.subrange(i as int, i + m)[k as int] != needle@[k as int]);
            return false;
        }
    }
    assert(hay@.subrange(i as int, i + m) =~= needle@);
    true
}

/// Substring search on character vectors.
pub fn contains_chars(hay: &Vec<char>, needle: &Vec<char>) -> (r: bool)
    ensures
        r == has_substring(hay@, needle@),
{
    let n = hay.len();
    let m = needle.len();
    if m > n {
        assert forall|i: int| !occurs_at(hay@, needle@, i) by {}
        return false;
    }
    if m == 0 {
        assert(hay@.subrange(0, 0) =~= needle@);
        assert(occurs_at(hay@, needle@, 0));
        return true;
    }
    let last = n - m;
    let mut i: usize = 0;
    while i <= last
        invariant
            n == hay@.len(),
            m == needle@.len(),
            m >= 1,
            last == n - m,
            i <= last + 1,
            forall|j: int| 0 <= j < i ==> !occurs_at(hay@, needle@, j),
        decreases last + 1 - i,
    {
        if occurs_at_exec(hay, needle, i) {
            return true;
        }
        i += 1;
    }
    assert forall|j: int| !occurs_at(hay@, needle@, j) by {
        if 0 <= j < i {
        }
    }
    false
}

/// Substring search where the needle is a string slice.
pub fn contains_str(hay: &Vec<char>, needle: &str) -> (r: bool)
    ensures
        r == has_substring(hay@, needle@),
{
    let n = chars_of(needle);
    contains_chars(hay, &n)
}


// ---------------------------------------------------------------------------
// Whitespace and words
// ---------------------------------------------------------------------------

/// The Unicode `White_Space` property (what `char::is_whitespace` tests).
pub open spec fn is_ws(c: char) -> bool {
    let u = c as u32;
    ||| 0x9 <= u <= 0xD
    ||| u == 0x20
    ||| u == 0x85
    ||| u == 0xA0
    ||| u == 0x1680
    ||| 0x2000 <= u <= 0x200A
    ||| u == 0x2028
    ||| u == 0x2029
    ||| u == 0x202F
    ||| u == 0x205F
    ||| u == 0x3000
}

pub fn is_whitespace(c: char) -> (r: bool)
    ensures
        r == is_ws(c),
{
    let u = c as u32;
    (0x9 <= u && u <= 0xD) || u == 0x20 || u == 0x85 || u == 0xA0 || u == 0x1680 || (0x2000 <= u
        && u <= 0x200A) || u == 0x2028 || u == 0x2029 || u == 0x202F || u == 0x205F || u == 0x3000
}

/// Length of the run of non-whitespace characters that starts `s`.
pub open spec fn word_prefix_len(s: Seq<char>) -> nat
    decreases s.len(),
{
    if s.len() == 0 || is_ws(s[0]) {
        0
    } else {
        1 + word_prefix_len(s.drop_first())
    }
}

pub proof fn lemma_word_prefix_len_bound(s: Seq<char>)
    ensures
        word_prefix_len(s) <= s.len(),
        s.len() > 0 && !is_ws(s[0]) ==> word_prefix_len(s) >= 1,
    decreases s.len(),
{
    if s.len() > 0 && !is_ws(s[0]) {
        lemma_word_prefix_len_bound(s.drop_first());
    }
}

/// The words of `s`: its maximal runs of non-whitespace characters, in order
/// (what `str::split_whitespace` yields).
pub open spec fn words(s: Seq<char>) -> Seq<Seq<char>>
    decreases s.len(),
{
    if s.len() == 0 {
        seq![]
    } else if is_ws(s[0]) {
        words(s.drop_first())
    } else {
        proof {
            lemma_word_prefix_len_bound(s);
        }
        let n = word_prefix_len(s);
        seq![s.take(n as int)] + words(s.skip(n as int))
    }
}

proof fn lemma_word_prefix_len_exact(t: Seq<char>, m: int)
    requires
        0 <= m <= t.len(),
        forall|k: int| 0 <= k < m ==> !is_ws(#[trigger] t[k]),
        m == t.len() || is_ws(t[m]),
    ensures
        word_prefix_len(t) == m,
    decreases m,
{
    if m > 0 {
        let u = t.drop_first();
        assert forall|k: int| 0 <= k < m - 1 implies !is_ws(#[trigger] u[k]) by {
            assert(u[k] == t[k + 1]);
        }
        lemma_word_prefix_len_exact(u, m - 1);
    }
}

/// Every word is non-empty and the words together are no longer than `s`.
pub proof fn lemma_words_bounded(s: Seq<char>)
    ensures
        forall|k: int| 0 <= k < words(s).len() ==> (#[trigger] words(s)[k]).len() >= 1,
        total_len(words(s)) <= s.len(),
    decreases s.len(),
{
    if s.len() == 0 {
    } else if is_ws(s[0]) {
        lemma_words_bounded(s.drop_first());
    } else {
        lemma_word_prefix_len_bound(s);
        let n = word_prefix_len(s);
        let rest = s.skip(n as int);
        lemma_words_bounded(rest);
        let w = words(s);
        assert(w == seq![s.take(n as int)] + words(rest));
        assert forall|k: int| 0 <= k < w.len() implies (#[trigger] w[k]).len() >= 1 by {
            if k > 0 {
                assert(w[k] == words(rest)[k - 1]);
            }
        }
        lemma_total_len_prepend(s.take(n as int), words(rest));
    }
}

/// Sum of the lengths of a sequence of strings.
pub open spec fn total_len(ws: Seq<Seq<char>>) -> nat
    decreases ws.len(),
{
    if ws.len() == 0 {
        0
    } else {
        total_len(ws.drop_last()) + ws.last().len()
    }
}

pub proof fn lemma_total_len_prepend(w: Seq<char>, ws: Seq<Seq<char>>)
    ensures
        total_len(seq![w] + ws) == w.len() + total_len(ws),
    decreases ws.len(),
{
    if ws.len() == 0 {
        assert(seq![w] + ws =~= seq![w]);
        assert(seq![w].drop_last() =~= Seq::<Seq<char>>::empty());
        assert(total_len(Seq::<Seq<char>>::empty()) == 0);
    } else {
        lemma_total_len_prepend(w, ws.drop_last());
        assert((seq![w] + ws).drop_last() =~= seq![w] + ws.drop_last());
        assert((seq![w] + ws).last() == ws.last());
    }
}

/// The characters of each vector of a sequence.
pub open spec fn char_views(v: Seq<Vec<char>>) -> Seq<Seq<char>> {
    v.map_values(|w: Vec<char>| w@)
}

pub proof fn lemma_total_len_take(s: Seq<Seq<char>>, k: int)
    requires
        0 <= k <= s.len(),
    ensures
        total_len(s.take(k)) <= total_len(s),
    decreases s.len() - k,
{
    if k < s.len() {
        lemma_total_len_take(s, k + 1);
        assert(s.take(k + 1).drop_last() =~= s.take(k));
    } else {
        assert(s.take(k) =~= s);
    }
}

/// Splits a character vector into its words.
pub fn split_words(s: &Vec<char>) -> (r: Vec<Vec<char>>)
    ensures
        char_views(r@) == words(s@),
{
    let n = s.len();
    let mut r: Vec<Vec<char>> = Vec::new();
    let mut i: usize = 0;
    assert(s@.skip(0) =~= s@);
    while i < n
        invariant
            n == s@.len(),
            i <= n,
            char_views(r@) + words(s@.skip(i as int)) == words(s@),
        decreases n - i,
    {
        let ghost rest = s@.skip(i as int);
        if is_whitespace(s[i]) {
            assert(rest.drop_first() =~= s@.skip(i + 1));
            i += 1;
        } else {
            let start = i;
            let mut w: Vec<char> = Vec::new();
            while i < n && !is_whitespace(s[i])
                invariant
                    n == s@.len(),
                    start <= i <= n,
                    w@ == s@.subrange(start as int, i as int),
                    forall|k: int| start <= k < i ==> !is_ws(#[trigger] s@[k]),
                decreases n - i,
            {
                w.push(s[i]);
                assert(w@ =~= s@.subrange(start as int, i + 1));
                i += 1;
            }
            let ghost m = (i - start) as int;
            assert forall|k: int| 0 <= k < m implies !is_ws(#[trigger] rest[k]) by {
                assert(rest[k] == s@[start + k]);
            }
            proof { lemma_word_prefix_len_exact(rest, m); }
            assert(rest.take(m) =~= w@);
            assert(rest.skip(m) =~= s@.skip(i as int));
            let ghost before = char_views(r@);
            r.push(w);
            assert(char_views(r@) =~= before.push(w@));
            assert(before.push(w@) + words(s@.skip(i as int)) =~= before + (seq![w@] + words(
                s@.skip(i as int),
            )));
        }
    }
    assert(s@.skip(n as int) =~= Seq::<char>::empty());
    assert(char_views(r@) + Seq::<Seq<char>>::empty() =~= char_views(r@));
    r
}


/// Whether `w` is one of the words `ws`.
pub fn contains_word(ws: &Vec<Vec<char>>, w: &Vec<char>) -> (r: bool)
    ensures
        r == char_views(ws@).contains(w@),
{
    let n = ws.len();
    for k in 0..n
        invariant
            n == ws@.len(),
            forall|j: int| 0 <= j < k ==> ws@[j]@ != w@,
    {
        if chars_eq(&ws[k], w) {
            assert(char_views(ws@)[k as int] == w@);
            return true;
        }
    }
    assert forall|j: int| 0 <= j < n implies char_views(ws@)[j] != w@ by {
        assert(char_views(ws@)[j] == ws@[j]@);
    }
    false
}

// ---------------------------------------------------------------------------
// Trimming
// ---------------------------------------------------------------------------

/// `s` without its leading whitespace.
pub open spec fn trim_start(s: Seq<char>) -> Seq<char>
    decreases s.len(),
{
    if s.len() > 0 && is_ws(s[0]) {
        trim_start(s.drop_first())
    } else {
        s
    }
}

/// `s` without its trailing whitespace.
pub open spec fn trim_end(s: Seq<char>) -> Seq<char>
    decreases s.len(),
{
    if s.len() > 0 && is_ws(s.last()) {
        trim_end(s.drop_last())
    } else {
        s
    }
}

/// `s` without leading and trailing whitespace (what `str::trim` returns).
pub open spec fn trim(s: Seq<char>) -> Seq<char> {
    trim_end(trim_start(s))
}

/// Removes leading and trailing whitespace.
pub fn trim_chars(s: &Vec<char>) -> (r: Vec<char>)
    ensures
        r@ == trim(s@),
{
    let n = s.len();
    let mut i: usize = 0;
    assert(s@.skip(0) =~= s@);
    while i < n && is_whitespace(s[i])
        invariant
            n == s@.len(),
            i <= n,
            trim_start(s@) == trim_start(s@.skip(i as int)),
        decreases n - i,
    {
        assert(s@.skip(i as int).drop_first() =~= s@.skip(i + 1));
        i += 1;
    }
    let ghost t = s@.skip(i as int);
    assert(trim_start(t) == t);
    let mut j: usize = n;
    assert(t.take(t.len() as int) =~= t);
    while j > i && is_whitespace(s[j - 1])
        invariant
            n == s@.len(),
            i <= j <= n,
            t == s@.skip(i as int),
            trim_end(t) == trim_end(t.take(j - i)),
        decreases j,
    {
        assert(t.take(j - i).drop_last() =~= t.take(j - 1 - i));
        assert(t.take(j - i).last() == s@[j - 1]);
        j -= 1;
    }
    assert(trim_end(t.take(j - i)) == t.take(j - i)) by {
        if j > i {
            assert(t.take(j - i).last() == s@[j - 1]);
        }
    }
    let mut r: Vec<char> = Vec::new();
    let mut k = i;
    while k < j
        invariant
            n == s@.len(),
            i <= k <= j <= n,
            r@ == s@.subrange(i as int, k as int),
        decreases j - k,
    {
        r.push(s[k]);
        assert(r@ =~= s@.subrange(i as int, k + 1));
        k += 1;
    }
    assert(r@ =~= t.take(j - i));
    r
}

/// `str::trim`, returned as an owned string.
pub fn trim_str(s: &str) -> (r: String)
    ensures
        r@ == trim(s@),
{
    let cs = chars_of(s);
    let t = trim_chars(&cs);
    string_of(&t)
}

// ---------------------------------------------------------------------------
// Joining
// ---------------------------------------------------------------------------

/// The parts separated by `sep` (what `[String]::join` returns).
pub open spec fn join(parts: Seq<Seq<char>>, sep: Seq<char>) -> Seq<char>
    decreases parts.len(),
{
    if parts.len() == 0 {
        seq![]
    } else if parts.len() == 1 {
        parts[0]
    } else {
        join(parts.drop_last(), sep) + sep + parts.last()
    }
}

/// Every part occurs in the joined text.
pub proof fn lemma_join_contains(parts: Seq<Seq<char>>, sep: Seq<char>, i: int)
    requires
        0 <= i < parts.len(),
    ensures
        has_substring(join(parts, sep), parts[i]),
    decreases parts.len(),
{
    if parts.len() == 1 {
        lemma_substring_self(parts[0]);
    } else {
        let front = join(parts.drop_last(), sep);
        let e = Seq::<char>::empty();
        if i == parts.len() - 1 {
            lemma_substring_self(parts.last());
            lemma_substring_extends(parts.last(), parts.last(), front + sep, e);
            assert(front + sep + parts.last() + e =~= join(parts, sep));
        } else {
            lemma_join_contains(parts.drop_last(), sep, i);
            assert(parts.drop_last()[i] == parts[i]);
            lemma_substring_extends(front, parts[i], e, sep + parts.last());
            assert(e + front + (sep + parts.last()) =~= join(parts, sep));
        }
    }
}

/// The joined text ends with the last part.
pub proof fn lemma_join_ends_with_last(parts: Seq<Seq<char>>, sep: Seq<char>)
    requires
        parts.len() > 0,
    ensures
        ends_with(join(parts, sep), parts.last()),
{
    let j = join(parts, sep);
    if parts.len() == 1 {
        assert(j.subrange(0, j.len() as int) =~= j);
    } else {
        let x = join(parts.drop_last(), sep) + sep;
        assert(j =~= x + parts.last());
        assert(j.subrange(j.len() - parts.last().len(), j.len() as int) =~= parts.last());
    }
}

/// Joining one part gives the part; joining more puts the separator between.
pub proof fn lemma_join_shape(parts: Seq<Seq<char>>, sep: Seq<char>, p: Seq<char>)
    ensures
        join(seq![p], sep) == p,
        parts.len() > 0 ==> join(parts.push(p), sep) == join(parts, sep) + sep + p,
{
    assert(seq![p].len() == 1);
    if parts.len() > 0 {
        assert(parts.push(p).drop_last() =~= parts);
    }
}

/// The characters of each string of a sequence.
pub open spec fn views(v: Seq<String>) -> Seq<Seq<char>> {
    v.map_values(|x: String| x@)
}

/// Joins strings with a separator.
pub fn join_strings(parts: &[String], sep: &str) -> (r: String)
    ensures
        r@ == join(views(parts@), sep@),
{
    let n = parts.len();
    let mut r = String::new();
    let ghost ps = views(parts@);
    for i in 0..n
        invariant
            n == parts@.len(),
            ps == views(parts@),
            r@ == join(ps.take(i as int), sep@),
    {
        assert(ps.take(i + 1).drop_last() =~= ps.take(i as int));
        if i != 0 {
            r.append(sep);
        }
        r.append(parts[i].as_str());
    }
    assert(ps.take(n as int) =~= ps);
    r
}

// ---------------------------------------------------------------------------
// Decimal rendering
// ---------------------------------------------------------------------------

/// The decimal digit character for `d < 10`.
pub open spec fn digit_char(d: nat) -> char {
    if d == 0 {
        '0'
    } else if d == 1 {
        '1'
    } else if d == 2 {
        '2'
    } else if d == 3 {
        '3'
    } else if d == 4 {
        '4'
    } else if d == 5 {
        '5'
    } else if d == 6 {
        '6'
    } else if d == 7 {
        '7'
    } else if d == 8 {
        '8'
    } else {
        '9'
    }
}

/// Decimal digits of a natural number, most significant first, no leading zero.
pub open spec fn decimal(n: nat) -> Seq<char>
    decreases n,
{
    if n < 10 {
        seq![digit_char(n)]
    } else {
        decimal(n / 10).push(digit_char(n % 10))
    }
}

/// Decimal rendering of an integer, with a leading `-` when negative
/// (what `Display` writes for Rust integers).
pub open spec fn decimal_int(i: int) -> Seq<char> {
    if i < 0 {
        seq!['-'] + decimal((-i) as nat)
    } else {
        decimal(i as nat)
    }
}

fn digit(d: u64) -> (c: char)
    requires
        d < 10,
    ensures
        c == digit_char(d as nat),
{
    if d == 0 {
        '0'
    } else if d == 1 {
        '1'
    } else if d == 2 {
        '2'
    } else if d == 3 {
        '3'
    } else if d == 4 {
        '4'
    } else if d == 5 {
        '5'
    } else if d == 6 {
        '6'
    } else if d == 7 {
        '7'
    } else if d == 8 {
        '8'
    } else {
        '9'
    }
}

/// Appends the decimal digits of `n`.
pub fn push_decimal(s: &mut String, n: u64)
    ensures
        final(s)@ == old(s)@ + decimal(n as nat),
    decreases n,
{
    if n >= 10 {
        push_decimal(s, n / 10);
    }
    push_char(s, digit(n % 10));
    assert(old(s)@ + decimal(n as nat) =~= s@);
}

/// Decimal rendering of an unsigned integer.
pub fn decimal_u64(n: u64) -> (r: String)
    ensures
        r@ == decimal(n as nat),
{
    let mut s = String::new();
    push_decimal(&mut s, n);
    assert(s@ =~= decimal(n as nat));
    s
}

/// Decimal rendering of a `usize`.
pub fn decimal_usize(n: usize) -> (r: String)
    ensures
        r@ == decimal(n as nat),
{
    decimal_u64(n as u64)
}

/// Decimal rendering of an `i32`.
pub fn decimal_i32(n: i32) -> (r: String)
    ensures
        r@ == decimal_int(n as int),
{
    let mut s = String::new();
    if n < 0 {
        push_char(&mut s, '-');
        let m: i64 = -(n as i64);
        push_decimal(&mut s, m as u64);
    } else {
        push_decimal(&mut s, n as u64);
    }
    assert(s@ =~= decimal_int(n as int));
    s
}


// ---------------------------------------------------------------------------
// UTF-8 byte length
// ---------------------------------------------------------------------------

/// Number of bytes of the UTF-8 encoding of `s` (what `str::len` returns).
pub open spec fn utf8_len(s: Seq<char>) -> nat {
    encode_utf8(s).len()
}

/// Number of bytes of the UTF-8 encoding of one character.
pub open spec fn char_width(c: char) -> nat {
    if (c as u32) <= 0x7F {
        1
    } else if (c as u32) <= 0x7FF {
        2
    } else if (c as u32) <= 0xFFFF {
        3
    } else {
        4
    }
}

/// Sum of the character widths of `s`.
pub open spec fn width_sum(s: Seq<char>) -> nat
    decreases s.len(),
{
    if s.len() == 0 {
        0
    } else {
        char_width(s[0]) + width_sum(s.drop_first())
    }
}

pub proof fn lemma_width_sum_is_utf8_len(s: Seq<char>)
    ensures
        width_sum(s) == utf8_len(s),
    decreases s.len(),
{
    if s.len() > 0 {
        lemma_width_sum_is_utf8_len(s.drop_first());
        let c = s[0];
        char_is_scalar(c);
        assert(encode_scalar(c as u32).len() == char_width(c));
    }
}

pub proof fn lemma_width_sum_push(s: Seq<char>, c: char)
    ensures
        width_sum(s.push(c)) == width_sum(s) + char_width(c),
        width_sum(s) <= 4 * s.len(),
    decreases s.len(),
{
    if s.len() > 0 {
        lemma_width_sum_push(s.drop_first(), c);
        assert(s.push(c).drop_first() =~= s.drop_first().push(c));
        assert(s.push(c)[0] == s[0]);
    } else {
        assert(s.push(c).drop_first() =~= Seq::<char>::empty());
        assert(width_sum(Seq::<char>::empty()) == 0);
        assert(s.push(c)[0] == c);
    }
}

fn char_width_exec(c: char) -> (r: u8)
    ensures
        r == char_width(c),
{
    let u = c as u32;
    if u <= 0x7F {
        1
    } else if u <= 0x7FF {
        2
    } else if u <= 0xFFFF {
        3
    } else {
        4
    }
}

/// UTF-8 byte length of a character vector.
pub fn utf8_len_of(s: &Vec<char>) -> (r: u128)
    ensures
        r == utf8_len(s@),
        r <= 4 * s@.len(),
{
    let n = s.len();
    let mut total: u128 = 0;
    for i in 0..n
        invariant
            n == s@.len(),
            total == width_sum(s@.take(i as int)),
            total <= 4 * i,
    {
        proof {
            lemma_width_sum_push(s@.take(i as int), s@[i as int]);
            assert(s@.take(i + 1) =~= s@.take(i as int).push(s@[i as int]));
        }
        total = total + char_width_exec(s[i]) as u128;
    }
    proof {
        assert(s@.take(n as int) =~= s@);
        lemma_width_sum_is_utf8_len(s@);
    }
    total
}

// ---------------------------------------------------------------------------
// Code-point order (the order of `String` comparison)
// ---------------------------------------------------------------------------

/// Lexicographic order on characters by code point; a proper prefix comes
/// first. This is the order `Ord for String` uses (UTF-8 keeps code-point order).
pub open spec fn str_lt(a: Seq<char>, b: Seq<char>) -> bool
    decreases a.len(),
{
    if a.len() == 0 {
        b.len() > 0
    } else if b.len() == 0 {
        false
    } else if a[0] != b[0] {
        (a[0] as u32) < (b[0] as u32)
    } else {
        str_lt(a.drop_first(), b.drop_first())
    }
}

pub proof fn lemma_str_lt_irreflexive(a: Seq<char>)
    ensures
        !str_lt(a, a),
    decreases a.len(),
{
    if a.len() > 0 {
        lemma_str_lt_irreflexive(a.drop_first());
    }
}

pub proof fn lemma_str_lt_transitive(a: Seq<char>, b: Seq<char>, c: Seq<char>)
    requires
        str_lt(a, b),
        str_lt(b, c),
    ensures
        str_lt(a, c),
    decreases a.len(),
{
    if a.len() > 0 && b.len() > 0 && c.len() > 0 {
        if a[0] == b[0] && b[0] == c[0] {
            lemma_str_lt_transitive(a.drop_first(), b.drop_first(), c.drop_first());
        } else {
            char_u32_cast(a[0], a[0] as u32);
            char_u32_cast(c[0], c[0] as u32);
            if a[0] == b[0] {
            } else if b[0] == c[0] {
            } else {
                assert((a[0] as u32) < (b[0] as u32));
                assert((b[0] as u32) < (c[0] as u32));
                if a[0] == c[0] {
                    assert(false);
                }
            }
        }
    }
}

pub proof fn lemma_str_lt_total(a: Seq<char>, b: Seq<char>)
    ensures
        a != b ==> str_lt(a, b) || str_lt(b, a),
        !(str_lt(a, b) && str_lt(b, a)),
    decreases a.len(),
{
    if a.len() > 0 && b.len() > 0 {
        lemma_str_lt_total(a.drop_first(), b.drop_first());
        if a[0] == b[0] && a != b {
            assert(a.drop_first() != b.drop_first()) by {
                if a.drop_first() == b.drop_first() {
                    assert(a =~= seq![a[0]] + a.drop_first());
                    assert(b =~= seq![b[0]] + b.drop_first());
                }
            }
        }
        if a[0] != b[0] {
            char_u32_cast(a[0], a[0] as u32);
            char_u32_cast(b[0], b[0] as u32);
        }
    } else if a.len() == 0 && b.len() == 0 {
        assert(a =~= b);
    }
}

/// Code-point order on character vectors.
pub fn chars_lt(a: &Vec<char>, b: &Vec<char>) -> (r: bool)
    ensures
        r == str_lt(a@, b@),
{
    let n = a.len();
    let m = b.len();
    let mut i: usize = 0;
    assert(a@.skip(0) =~= a@);
    assert(b@.skip(0) =~= b@);
    while i < n && i < m
        invariant
            n == a@.len(),
            m == b@.len(),
            i <= n,
            i <= m,
            str_lt(a@, b@) == str_lt(a@.skip(i as int), b@.skip(i as int)),
        decreases n - i,
    {
        let x = a[i];
        let y = b[i];
        if x != y {
            return (x as u32) < (y as u32);
        }
        assert(a@.skip(i as int).drop_first() =~= a@.skip(i + 1));
        assert(b@.skip(i as int).drop_first() =~= b@.skip(i + 1));
        i += 1;
    }
    i == n && i < m
}

// ---------------------------------------------------------------------------
// Sorted lists of distinct strings
// ---------------------------------------------------------------------------

/// `v` is strictly increasing in code-point order (so it holds no duplicate).
pub open spec fn strictly_sorted(v: Seq<Seq<char>>) -> bool {
    forall|i: int, j: int| 0 <= i < j < v.len() ==> str_lt(#[trigger] v[i], #[trigger] v[j])
}

/// Two strictly sorted lists with the same elements are equal.
pub proof fn lemma_sorted_unique(a: Seq<Seq<char>>, b: Seq<Seq<char>>)
    requires
        strictly_sorted(a),
        strictly_sorted(b),
        forall|x: Seq<char>| a.contains(x) <==> b.contains(x),
    ensures
        a == b,
    decreases a.len(),
{
    if a.len() == 0 {
        if b.len() > 0 {
            assert(b.contains(b[0]));
        }
        assert(a =~= b);
    } else if b.len() == 0 {
        assert(a.contains(a[0]));
    } else {
        let x = a[0];
        let y = b[0];
        assert(a.contains(x));
        assert(b.contains(y));
        let j = choose|j: int| 0 <= j < b.len() && b[j] == x;
        let i = choose|i: int| 0 <= i < a.len() && a[i] == y;
        if x != y {
            lemma_str_lt_total(x, y);
            if j > 0 {
                assert(str_lt(y, x));
            }
            if i > 0 {
                assert(str_lt(x, y));
            }
            assert(false);
        }
        let a1 = a.drop_first();
        let b1 = b.drop_first();
        assert forall|z: Seq<char>| a1.contains(z) implies b1.contains(z) by {
            let k = choose|k: int| 0 <= k < a1.len() && a1[k] == z;
            assert(a.contains(z) && a[k + 1] == z);
            lemma_str_lt_irreflexive(z);
            let l = choose|l: int| 0 <= l < b.len() && b[l] == z;
            if l == 0 {
                assert(str_lt(a[0], a[k + 1]));
            }
            assert(b1[l - 1] == z);
        }
        assert forall|z: Seq<char>| b1.contains(z) implies a1.contains(z) by {
            let k = choose|k: int| 0 <= k < b1.len() && b1[k] == z;
            assert(b.contains(z) && b[k + 1] == z);
            lemma_str_lt_irreflexive(z);
            let l = choose|l: int| 0 <= l < a.len() && a[l] == z;
            if l == 0 {
                assert(str_lt(b[0], b[k + 1]));
            }
            assert(a1[l - 1] == z);
        }
        lemma_sorted_unique(a1, b1);
        assert(a =~= seq![x] + a1);
        assert(b =~= seq![y] + b1);
    }
}

/// Inserts `x` into a strictly sorted list unless it is already there.
pub fn insert_sorted(v: &mut Vec<String>, x: String)
    requires
        strictly_sorted(views(old(v)@)),
    ensures
        strictly_sorted(views(final(v)@)),
        forall|z: Seq<char>| #[trigger] views(final(v)@).contains(z) <==> (views(old(v)@).contains(z) || z == x@),
{
    let ghost old_views = views(v@);
    let xc = chars_of(x.as_str());
    let n = v.len();
    let mut p: usize = 0;
    while p < n
        invariant
            n == v@.len(),
            p <= n,
            old_views == views(v@),
            xc@ == x@,
            forall|k: int| 0 <= k < p ==> str_lt(#[trigger] old_views[k], x@),
        ensures
            p <= n,
            forall|k: int| 0 <= k < p ==> str_lt(#[trigger] old_views[k], x@),
            p < n ==> !str_lt(old_views[p as int], x@),
        decreases n - p,
    {
        let vc = chars_of(v[p].as_str());
        if !chars_lt(&vc, &xc) {
            break;
        }
        p += 1;
    }
    // Every element from position p on is not below x.
    if p < n {
        let vc = chars_of(v[p].as_str());
        if chars_eq(&vc, &xc) {
            assert(old_views[p as int] == x@);
            assert forall|z: Seq<char>| #[trigger] old_views.contains(z) <==> (old_views.contains(z) || z == x@) by {
                if z == x@ {
                    assert(old_views[p as int] == z);
                }
            }
            return;
        }
        proof {
            lemma_str_lt_total(old_views[p as int], x@);
        }
    }
    assert forall|k: int| p <= k < n implies str_lt(x@, #[trigger] old_views[k]) by {
        if k > p {
            lemma_str_lt_transitive(x@, old_views[p as int], old_views[k]);
        }
    }
    v.insert(p, x);
    let ghost nv = views(v@);
    assert(nv =~= old_views.insert(p as int, x@));
    assert forall|i: int, j: int| 0 <= i < j < nv.len() implies str_lt(#[trigger] nv[i], #[trigger] nv[j]) by {
        if i < p && j > p {
            lemma_str_lt_transitive(nv[i], x@, nv[j]);
        }
    }
    assert forall|z: Seq<char>| #[trigger] nv.contains(z) <==> (old_views.contains(z) || z == x@) by {
        if nv.contains(z) {
            let k = choose|k: int| 0 <= k < nv.len() && nv[k] == z;
            if k < p {
                assert(old_views[k] == z);
            } else if k > p {
                assert(old_views[k - 1] == z);
            }
        }
        if old_views.contains(z) {
            let k = choose|k: int| 0 <= k < old_views.len() && old_views[k] == z;
            if k < p {
                assert(nv[k] == z);
            } else {
                assert(nv[k + 1] == z);
            }
        }
        if z == x@ {
            assert(nv[p as int] == z);
        }
    }
}

} // verus!

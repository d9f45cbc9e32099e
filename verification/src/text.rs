//! Text primitives over character sequences: whitespace, searching, trimming,
//! splitting into lines, fields and words, and numeric parsing.
use vstd::prelude::*;

verus! {

broadcast use vstd::string::group_string_axioms;

// ------------------------------------------------------------------ specs

/// Whitespace as `char::is_whitespace` defines it: the Unicode `White_Space` property.
pub open spec fn is_ws(c: char) -> bool {
    let u = c as u32;
    ||| 0x9 <= u <= 0xd
    ||| u == 0x20
    ||| u == 0x85
    ||| u == 0xa0
    ||| u == 0x1680
    ||| 0x2000 <= u <= 0x200a
    ||| u == 0x2028
    ||| u == 0x2029
    ||| u == 0x202f
    ||| u == 0x205f
    ||| u == 0x3000
}

/// The predicate "is whitespace".
pub open spec fn ws_pred() -> spec_fn(char) -> bool {
    |x: char| is_ws(x)
}

/// The predicate "is not whitespace".
pub open spec fn non_ws_pred() -> spec_fn(char) -> bool {
    |x: char| !is_ws(x)
}

/// The predicate "equals `c`".
pub open spec fn eq_pred(c: char) -> spec_fn(char) -> bool {
    |x: char| x == c
}

/// Index of the first element of `s` that satisfies `p`, or `s.len()` when none does.
pub open spec fn first_index(s: Seq<char>, p: spec_fn(char) -> bool) -> nat
    decreases s.len(),
{
    if s.len() == 0 {
        0
    } else if p(s[0]) {
        0
    } else {
        1 + first_index(s.drop_first(), p)
    }
}

/// `s` with its leading whitespace removed.
pub open spec fn trim_start(s: Seq<char>) -> Seq<char> {
    s.skip(first_index(s, non_ws_pred()) as int)
}

/// `s` with its trailing whitespace removed.
pub open spec fn trim_end(s: Seq<char>) -> Seq<char>
    decreases s.len(),
{
    if s.len() > 0 && is_ws(s.last()) {
        trim_end(s.drop_last())
    } else {
        s
    }
}

/// `s` with leading and trailing whitespace removed (`str::trim`).
pub open spec fn trim(s: Seq<char>) -> Seq<char> {
    trim_end(trim_start(s))
}

/// `p` occurs in `s` starting at position `i`.
pub open spec fn occurs_at(s: Seq<char>, p: Seq<char>, i: int) -> bool {
    0 <= i && i + p.len() <= s.len() && s.subrange(i, i + p.len()) == p
}

/// `p` occurs somewhere in `s` (`str::contains` with a string pattern).
pub open spec fn contains(s: Seq<char>, p: Seq<char>) -> bool {
    exists|i: int| occurs_at(s, p, i)
}

/// `s` begins with `p` (`str::starts_with`).
pub open spec fn starts_with(s: Seq<char>, p: Seq<char>) -> bool {
    occurs_at(s, p, 0)
}


/// The contents of each string, in order.
pub open spec fn string_views(v: Seq<String>) -> Seq<Seq<char>> {
    v.map_values(|s: String| s@)
}

/// The contents of each character vector, in order.
pub open spec fn views(v: Seq<Vec<char>>) -> Seq<Seq<char>> {
    v.map_values(|x: Vec<char>| x@)
}

/// The pieces of `s` between occurrences of `c` (`str::split` with a `char`).
pub open spec fn split_on(s: Seq<char>, c: char) -> Seq<Seq<char>>
    decreases s.len(),
{
    let k = first_index(s, eq_pred(c));
    if k >= s.len() {
        seq![s]
    } else {
        seq![s.take(k as int)] + split_on(s.skip((k + 1) as int), c)
    }
}

/// At most `n` pieces of `s`, split at the first `n - 1` occurrences of `c`
/// (`str::splitn` with a `char`).
pub open spec fn splitn_on(s: Seq<char>, n: nat, c: char) -> Seq<Seq<char>>
    decreases n,
{
    if n == 0 {
        seq![]
    } else if n == 1 {
        seq![s]
    } else {
        let k = first_index(s, eq_pred(c));
        if k >= s.len() {
            seq![s]
        } else {
            seq![s.take(k as int)] + splitn_on(s.skip((k + 1) as int), (n - 1) as nat, c)
        }
    }
}

/// `l` without one trailing carriage return.
pub open spec fn strip_cr(l: Seq<char>) -> Seq<char> {
    if l.len() > 0 && l.last() == '\r' {
        l.drop_last()
    } else {
        l
    }
}

/// The lines of `s` (`str::lines`): pieces ended by `\n` or `\r\n`; a last piece
/// without a line ending counts only when it is not empty.
pub open spec fn lines_of(s: Seq<char>) -> Seq<Seq<char>>
    decreases s.len(),
{
    if s.len() == 0 {
        seq![]
    } else {
        let k = first_index(s, eq_pred('\n'));
        if k >= s.len() {
            seq![s]
        } else {
            seq![strip_cr(s.take(k as int))] + lines_of(s.skip((k + 1) as int))
        }
    }
}

/// The maximal runs of non-whitespace characters of `s` (`str::split_whitespace`).
pub open spec fn words_of(s: Seq<char>) -> Seq<Seq<char>>
    decreases s.len(),
{
    let a = first_index(s, non_ws_pred());
    let t = s.skip(a as int);
    if t.len() == 0 {
        seq![]
    } else {
        let k = first_index(t, ws_pred());
        proof {
            lemma_first_index(s, non_ws_pred());
            lemma_first_index(t, ws_pred());
            assert(t[0] == s[a as int]);
        }
        seq![t.take(k as int)] + words_of(t.skip(k as int))
    }
}

/// `s` with every occurrence of `p` removed, scanning left to right
/// (`str::replace(p, "")`).
pub open spec fn remove_all(s: Seq<char>, p: Seq<char>) -> Seq<char>
    decreases s.len(),
{
    if p.len() == 0 || s.len() < p.len() {
        s
    } else if starts_with(s, p) {
        remove_all(s.skip(p.len() as int), p)
    } else {
        seq![s[0]] + remove_all(s.drop_first(), p)
    }
}

/// The value of a string of decimal digits, most significant first.
pub open spec fn digits_value(s: Seq<char>) -> nat
    decreases s.len(),
{
    if s.len() == 0 {
        0
    } else {
        digits_value(s.drop_last()) * 10 + ((s.last() as u32) - ('0' as u32)) as nat
    }
}

/// Every character of `s` is an ASCII digit.
pub open spec fn all_digits(s: Seq<char>) -> bool {
    forall|i: int| 0 <= i < s.len() ==> '0' <= #[trigger] s[i] <= '9'
}

/// `str::parse::<u64>`: an optional `+`, then at least one ASCII digit and nothing
/// else, with a value that fits in a `u64`.
pub open spec fn parse_u64_spec(s: Seq<char>) -> Option<u64> {
    let d = if s.len() > 0 && s[0] == '+' { s.drop_first() } else { s };
    if d.len() > 0 && all_digits(d) && digits_value(d) <= u64::MAX {
        Some(digits_value(d) as u64)
    } else {
        None
    }
}


/// What follows the first `c` in `s` (`s.splitn(2, c).nth(1)`), or nothing.
pub open spec fn after_first(s: Seq<char>, c: char) -> Seq<char> {
    let p = splitn_on(s, 2, c);
    if p.len() > 1 {
        p[1]
    } else {
        Seq::empty()
    }
}

/// The second piece of `s` split at `c` (`s.split(c).nth(1)`), or nothing.
pub open spec fn second_piece(s: Seq<char>, c: char) -> Seq<char> {
    let p = split_on(s, c);
    if p.len() > 1 {
        p[1]
    } else {
        Seq::empty()
    }
}

/// The lowercased text of each line.
pub open spec fn lowered(ls: Seq<Seq<char>>) -> Seq<Seq<char>> {
    ls.map_values(|l: Seq<char>| spec_lowercase(l))
}

/// Every ASCII text among `ls` has the ASCII lowercase as its lowercased text.
pub open spec fn ascii_lowered(ls: Seq<Seq<char>>) -> bool {
    forall|i: int|
        0 <= i < ls.len() && vstd::utf8::is_ascii_chars(ls[i]) ==> #[trigger] spec_lowercase(ls[i])
            == ascii_lower(ls[i])
}

// ------------------------------------------------------------------ lemmas

/// What `first_index` returns: no earlier element satisfies `p`, and the element
/// at the index, when there is one, does.
pub proof fn lemma_first_index(s: Seq<char>, p: spec_fn(char) -> bool)
    ensures
        first_index(s, p) <= s.len(),
        forall|i: int| 0 <= i < first_index(s, p) ==> !p(#[trigger] s[i]),
        first_index(s, p) < s.len() ==> p(s[first_index(s, p) as int]),
    decreases s.len(),
{
    if s.len() > 0 && !p(s[0]) {
        lemma_first_index(s.drop_first(), p);
        assert forall|i: int| 0 <= i < first_index(s, p) implies !p(#[trigger] s[i]) by {
            if i > 0 {
                assert(s[i] == s.drop_first()[i - 1]);
            }
        }
    }
}

/// `first_index` is the index `k` when no element before `k` satisfies `p` and
/// `k` is either the end or an element that does.
pub proof fn lemma_first_index_is(s: Seq<char>, p: spec_fn(char) -> bool, k: int)
    requires
        0 <= k <= s.len(),
        forall|i: int| 0 <= i < k ==> !p(#[trigger] s[i]),
        k < s.len() ==> p(s[k]),
    ensures
        first_index(s, p) == k,
    decreases k,
{
    if k > 0 {
        assert(!p(s[0]));
        assert forall|i: int| 0 <= i < k - 1 implies !p(#[trigger] s.drop_first()[i]) by {
            assert(s.drop_first()[i] == s[i + 1]);
        }
        lemma_first_index_is(s.drop_first(), p, k - 1);
    }
}


/// Splitting at a separator found at `i`: the first piece of `s.skip(start)` ends
/// at `i`, and the rest begins after it.
pub proof fn lemma_split_step(s: Seq<char>, start: int, i: int, c: char)
    requires
        0 <= start <= i < s.len(),
        s[i] == c,
        forall|j: int| start <= j < i ==> s[j] != c,
    ensures
        first_index(s.skip(start), eq_pred(c)) == i - start,
        s.skip(start).take(i - start) == s.subrange(start, i),
        s.skip(start).skip(i - start + 1) == s.skip(i + 1),
{
    let t = s.skip(start);
    assert forall|j: int| 0 <= j < i - start implies !eq_pred(c)(#[trigger] t[j]) by {
        assert(t[j] == s[start + j]);
    }
    lemma_first_index_is(t, eq_pred(c), i - start);
    assert(t.take(i - start) =~= s.subrange(start, i));
    assert(t.skip(i - start + 1) =~= s.skip(i + 1));
}

/// With no separator left after `start`, `s.skip(start)` has no separator.
pub proof fn lemma_split_none(s: Seq<char>, start: int, c: char)
    requires
        0 <= start <= s.len(),
        forall|j: int| start <= j < s.len() ==> s[j] != c,
    ensures
        first_index(s.skip(start), eq_pred(c)) == s.len() - start,
{
    let t = s.skip(start);
    assert forall|j: int| 0 <= j < s.len() - start implies !eq_pred(c)(#[trigger] t[j]) by {
        assert(t[j] == s[start + j]);
    }
    lemma_first_index_is(t, eq_pred(c), s.len() - start);
}

/// `splitn` with a limit of at least one yields at least one piece.
pub proof fn lemma_splitn_nonempty(s: Seq<char>, n: nat, c: char)
    requires
        n >= 1,
    ensures
        splitn_on(s, n, c).len() >= 1,
{
}


/// `trim_end` keeps a prefix of its input, ending in a non-whitespace character
/// when it keeps anything.
pub proof fn lemma_trim_end_prefix(t: Seq<char>)
    ensures
        trim_end(t).len() <= t.len(),
        trim_end(t) == t.take(trim_end(t).len() as int),
        trim_end(t).len() > 0 ==> !is_ws(trim_end(t).last()),
    decreases t.len(),
{
    if t.len() > 0 && is_ws(t.last()) {
        lemma_trim_end_prefix(t.drop_last());
        assert(t.drop_last().take(trim_end(t).len() as int) =~= t.take(trim_end(t).len() as int));
    } else {
        assert(t.take(t.len() as int) =~= t);
    }
}

/// Law: trimmed text neither begins nor ends with whitespace, and trimming it
/// again changes nothing.
pub proof fn lemma_trim_shape(s: Seq<char>)
    ensures
        trim(s).len() > 0 ==> !is_ws(trim(s)[0]) && !is_ws(trim(s).last()),
        trim(trim(s)) == trim(s),
{
    let a = first_index(s, non_ws_pred());
    lemma_first_index(s, non_ws_pred());
    let u = trim_start(s);
    lemma_trim_end_prefix(u);
    let t = trim(s);
    if t.len() > 0 {
        assert(t[0] == u[0]);
        assert(u[0] == s[a as int]);
    }
    lemma_first_index_is(t, non_ws_pred(), 0);
    assert(t.skip(0) =~= t);
    assert(trim_start(t) == t);
    assert(trim_end(t) == t);
}


/// Law: lowercasing forgets case: lowercasing the uppercased or the lowercased
/// text gives the text lowercased; both keep ASCII text ASCII.
pub proof fn lemma_ascii_case(s: Seq<char>)
    ensures
        ascii_lower(ascii_upper(s)) == ascii_lower(s),
        ascii_lower(ascii_lower(s)) == ascii_lower(s),
        vstd::utf8::is_ascii_chars(s) ==> vstd::utf8::is_ascii_chars(ascii_upper(s))
            && vstd::utf8::is_ascii_chars(ascii_lower(s)),
{
    assert forall|i: int| 0 <= i < s.len() implies #[trigger] ascii_lower_char(
        ascii_upper_char(s[i]),
    ) == ascii_lower_char(s[i]) && ascii_lower_char(ascii_lower_char(s[i])) == ascii_lower_char(
        s[i],
    ) by {
        let c = s[i];
        if 'a' <= c <= 'z' {
            assert(((c as u32) - 32) as char as u32 == (c as u32) - 32);
        } else if 'A' <= c <= 'Z' {
            assert(((c as u32) + 32) as char as u32 == (c as u32) + 32);
        }
    }
    assert(ascii_lower(ascii_upper(s)) =~= ascii_lower(s));
    assert(ascii_lower(ascii_lower(s)) =~= ascii_lower(s));
    if vstd::utf8::is_ascii_chars(s) {
        assert forall|i: int| 0 <= i < s.len() implies (#[trigger] ascii_upper(s)[i] as u32) < 128
            && (ascii_lower(s)[i] as u32) < 128 by {
            let c = s[i];
            assert((c as u32) < 128);
            if 'a' <= c <= 'z' {
                assert(((c as u32) - 32) as char as u32 == (c as u32) - 32);
            } else if 'A' <= c <= 'Z' {
                assert(((c as u32) + 32) as char as u32 == (c as u32) + 32);
            }
        }
    }
}

// ------------------------------------------------------------------ trusted

/// Appends `c` to `s` (`String::push`): the new contents are the old ones followed by `c`.
#[verifier::external_body]
pub(crate) fn push_char(s: &mut String, c: char)
    ensures
        final(s)@ == old(s)@.push(c),
{
    s.push(c);
}


/// What `str::to_lowercase` returns for a string with these characters (the Unicode
/// lowercase mapping, which depends on the characters alone).
pub uninterp spec fn spec_lowercase(s: Seq<char>) -> Seq<char>;

/// `c` in ASCII lowercase: `A`-`Z` become `a`-`z`, any other character stays.
pub open spec fn ascii_lower_char(c: char) -> char {
    if 'A' <= c <= 'Z' {
        ((c as u32) + 32) as char
    } else {
        c
    }
}

/// `c` in ASCII uppercase: `a`-`z` become `A`-`Z`, any other character stays.
pub open spec fn ascii_upper_char(c: char) -> char {
    if 'a' <= c <= 'z' {
        ((c as u32) - 32) as char
    } else {
        c
    }
}

/// `s` in ASCII lowercase (`str::to_ascii_lowercase`).
pub open spec fn ascii_lower(s: Seq<char>) -> Seq<char> {
    s.map_values(|c: char| ascii_lower_char(c))
}

/// `s` in ASCII uppercase (`str::to_ascii_uppercase`).
pub open spec fn ascii_upper(s: Seq<char>) -> Seq<char> {
    s.map_values(|c: char| ascii_upper_char(c))
}

/// What `String::from_utf8_lossy` returns for these bytes.
pub uninterp spec fn spec_utf8_lossy(b: Seq<u8>) -> Seq<char>;

/// Lowercases `s` with `str::to_lowercase`. Claimed: the result is `spec_lowercase`
/// of the characters of `s`, and for an all-ASCII `s` it is `s` with `A`-`Z` turned
/// into `a`-`z` (the Unicode lowercase mapping on ASCII, which the function is
/// documented to apply). Nothing is claimed of other characters.
#[verifier::external_body]
pub(crate) fn lowercase(s: &str) -> (r: String)
    ensures
        r@ == spec_lowercase(s@),
        vstd::utf8::is_ascii_chars(s@) ==> r@ == ascii_lower(s@),
{
    s.to_lowercase()
}

/// Decodes `b` with `String::from_utf8_lossy`. Claimed: the result is
/// `spec_utf8_lossy(b)`, and when `b` is valid UTF-8 it is exactly what `b` encodes
/// (the documented behaviour of the function); how invalid sequences are replaced
/// is not stated.
#[verifier::external_body]
pub(crate) fn utf8_lossy(b: &[u8]) -> (r: String)
    ensures
        r@ == spec_utf8_lossy(b@),
        vstd::utf8::valid_utf8(b@) ==> r@ == vstd::utf8::decode_utf8(b@),
{
    String::from_utf8_lossy(b).into_owned()
}

// ------------------------------------------------------------------ exec

/// `char::is_whitespace`, decided over the code point ranges of `White_Space`.
pub fn is_whitespace(c: char) -> (r: bool)
    ensures
        r == is_ws(c),
{
    let u = c as u32;
    (0x9 <= u && u <= 0xd) || u == 0x20 || u == 0x85 || u == 0xa0 || u == 0x1680 || (0x2000 <= u
        && u <= 0x200a) || u == 0x2028 || u == 0x2029 || u == 0x202f || u == 0x205f || u == 0x3000
}

/// The characters of `s`, in order.
pub fn chars_of(s: &str) -> (r: Vec<char>)
    ensures
        r@ == s@,
{
    let mut r: Vec<char> = Vec::new();
    for c in it: s.chars()
        invariant
            r@ == it.seq().take(it.index() as int),
            it.seq() == s@,
    {
        r.push(c);
    }
    r
}

/// A `String` holding `cs[lo..hi]`.
pub fn string_of_range(cs: &Vec<char>, lo: usize, hi: usize) -> (r: String)
    requires
        lo <= hi <= cs.len(),
    ensures
        r@ == cs@.subrange(lo as int, hi as int),
{
    let mut r = String::new();
    let mut i = lo;
    while i < hi
        invariant
            lo <= i <= hi <= cs.len(),
            r@ == cs@.subrange(lo as int, i as int),
        decreases hi - i,
    {
        push_char(&mut r, cs[i]);
        assert(cs@.subrange(lo as int, i + 1) =~= cs@.subrange(lo as int, i as int).push(cs[i as int]));
        i = i + 1;
    }
    r
}

/// A `String` holding `cs`.
pub fn string_of(cs: &Vec<char>) -> (r: String)
    ensures
        r@ == cs@,
{
    let r = string_of_range(cs, 0, cs.len());
    assert(cs@.subrange(0, cs.len() as int) =~= cs@);
    r
}

/// Position of the first non-whitespace character of `cs[lo..hi]` (or `hi`).
fn skip_ws(cs: &Vec<char>, lo: usize, hi: usize) -> (k: usize)
    requires
        lo <= hi <= cs.len(),
    ensures
        lo <= k <= hi,
        k - lo == first_index(cs@.subrange(lo as int, hi as int), non_ws_pred()),
{
    let mut k = lo;
    while k < hi && is_whitespace(cs[k])
        invariant
            lo <= k <= hi <= cs.len(),
            forall|i: int| lo <= i < k ==> is_ws(#[trigger] cs@[i]),
        decreases hi - k,
    {
        k = k + 1;
    }
    let ghost sub = cs@.subrange(lo as int, hi as int);
    proof {
        assert forall|i: int| 0 <= i < k - lo implies !non_ws_pred()(#[trigger] sub[i]) by {
            assert(sub[i] == cs@[lo + i]);
        }
        lemma_first_index_is(sub, non_ws_pred(), k - lo);
    }
    k
}

/// End of `cs[lo..hi]` once its trailing whitespace is dropped.
fn skip_ws_back(cs: &Vec<char>, lo: usize, hi: usize) -> (k: usize)
    requires
        lo <= hi <= cs.len(),
    ensures
        lo <= k <= hi,
        cs@.subrange(lo as int, k as int) == trim_end(cs@.subrange(lo as int, hi as int)),
{
    let mut k = hi;
    while k > lo && is_whitespace(cs[k - 1])
        invariant
            lo <= k <= hi <= cs.len(),
            trim_end(cs@.subrange(lo as int, k as int)) == trim_end(
                cs@.subrange(lo as int, hi as int),
            ),
        decreases k - lo,
    {
        assert(cs@.subrange(lo as int, k as int).drop_last() =~= cs@.subrange(
            lo as int,
            k - 1,
        ));
        k = k - 1;
    }
    k
}


/// A vector holding `cs[lo..hi]`.
pub fn sub_vec(cs: &Vec<char>, lo: usize, hi: usize) -> (r: Vec<char>)
    requires
        lo <= hi <= cs.len(),
    ensures
        r@ == cs@.subrange(lo as int, hi as int),
{
    let mut r: Vec<char> = Vec::new();
    let mut i = lo;
    while i < hi
        invariant
            lo <= i <= hi <= cs.len(),
            r@ == cs@.subrange(lo as int, i as int),
        decreases hi - i,
    {
        r.push(cs[i]);
        assert(cs@.subrange(lo as int, i + 1) =~= cs@.subrange(lo as int, i as int).push(cs[i as int]));
        i = i + 1;
    }
    r
}

/// At most `n` pieces of `cs` split at occurrences of `c` (`str::splitn`).
pub fn splitn_chars(cs: &Vec<char>, n: usize, c: char) -> (r: Vec<Vec<char>>)
    ensures
        views(r@) == splitn_on(cs@, n as nat, c),
{
    let mut r: Vec<Vec<char>> = Vec::new();
    if n == 0 {
        assert(views(r@) =~= Seq::<Seq<char>>::empty());
        return r;
    }
    let mut start: usize = 0;
    let mut i: usize = 0;
    assert(cs@.skip(0) =~= cs@);
    assert(views(r@) + splitn_on(cs@, n as nat, c) =~= splitn_on(cs@, n as nat, c));
    while i < cs.len() && r.len() + 1 < n
        invariant
            start <= i <= cs.len(),
            r.len() < n,
            forall|j: int| start <= j < i ==> cs@[j] != c,
            views(r@) + splitn_on(cs@.skip(start as int), (n - r.len()) as nat, c) == splitn_on(
                cs@,
                n as nat,
                c,
            ),
        decreases cs.len() - i,
    {
        if cs[i] == c {
            let piece = sub_vec(cs, start, i);
            proof {
                lemma_split_step(cs@, start as int, i as int, c);
                let m = (n - r.len()) as nat;
                assert(splitn_on(cs@.skip(start as int), m, c) == seq![piece@] + splitn_on(
                    cs@.skip(i + 1),
                    (m - 1) as nat,
                    c,
                ));
                assert(views(r@.push(piece)) =~= views(r@).push(piece@));
                assert(views(r@) + (seq![piece@] + splitn_on(cs@.skip(i + 1), (m - 1) as nat, c))
                    =~= views(r@).push(piece@) + splitn_on(cs@.skip(i + 1), (m - 1) as nat, c));
            }
            r.push(piece);
            start = i + 1;
        }
        i = i + 1;
    }
    let last = sub_vec(cs, start, cs.len());
    proof {
        let m = (n - r.len()) as nat;
        if r.len() + 1 < n {
            lemma_split_none(cs@, start as int, c);
        }
        assert(cs@.subrange(start as int, cs.len() as int) =~= cs@.skip(start as int));
        assert(splitn_on(cs@.skip(start as int), m, c) == seq![last@]);
        assert(views(r@.push(last)) =~= views(r@) + seq![last@]);
    }
    r.push(last);
    r
}

/// The pieces of `cs` between occurrences of `c` (`str::split`).
pub fn split_chars(cs: &Vec<char>, c: char) -> (r: Vec<Vec<char>>)
    ensures
        views(r@) == split_on(cs@, c),
{
    let mut r: Vec<Vec<char>> = Vec::new();
    let mut start: usize = 0;
    let mut i: usize = 0;
    assert(cs@.skip(0) =~= cs@);
    assert(views(r@) + split_on(cs@, c) =~= split_on(cs@, c));
    while i < cs.len()
        invariant
            start <= i <= cs.len(),
            forall|j: int| start <= j < i ==> cs@[j] != c,
            views(r@) + split_on(cs@.skip(start as int), c) == split_on(cs@, c),
        decreases cs.len() - i,
    {
        if cs[i] == c {
            let piece = sub_vec(cs, start, i);
            proof {
                lemma_split_step(cs@, start as int, i as int, c);
                assert(split_on(cs@.skip(start as int), c) == seq![piece@] + split_on(
                    cs@.skip(i + 1),
                    c,
                ));
                assert(views(r@.push(piece)) =~= views(r@).push(piece@));
                assert(views(r@) + (seq![piece@] + split_on(cs@.skip(i + 1), c)) =~= views(
                    r@,
                ).push(piece@) + split_on(cs@.skip(i + 1), c));
            }
            r.push(piece);
            start = i + 1;
        }
        i = i + 1;
    }
    let last = sub_vec(cs, start, cs.len());
    proof {
        lemma_split_none(cs@, start as int, c);
        assert(cs@.subrange(start as int, cs.len() as int) =~= cs@.skip(start as int));
        assert(split_on(cs@.skip(start as int), c) == seq![last@]);
        assert(views(r@.push(last)) =~= views(r@) + seq![last@]);
    }
    r.push(last);
    r
}

/// `l` without one trailing carriage return.
fn strip_cr_vec(l: Vec<char>) -> (r: Vec<char>)
    ensures
        r@ == strip_cr(l@),
{
    let mut l = l;
    if l.len() > 0 && l[l.len() - 1] == '\r' {
        l.pop();
    }
    l
}

/// The lines of `cs` (`str::lines`).
pub fn lines_chars(cs: &Vec<char>) -> (r: Vec<Vec<char>>)
    ensures
        views(r@) == lines_of(cs@),
{
    let mut r: Vec<Vec<char>> = Vec::new();
    let mut start: usize = 0;
    let mut i: usize = 0;
    assert(cs@.skip(0) =~= cs@);
    assert(views(r@) + lines_of(cs@) =~= lines_of(cs@));
    while i < cs.len()
        invariant
            start <= i <= cs.len(),
            forall|j: int| start <= j < i ==> cs@[j] != '\n',
            views(r@) + lines_of(cs@.skip(start as int)) == lines_of(cs@),
        decreases cs.len() - i,
    {
        if cs[i] == '\n' {
            let piece = strip_cr_vec(sub_vec(cs, start, i));
            proof {
                lemma_split_step(cs@, start as int, i as int, '\n');
                assert(lines_of(cs@.skip(start as int)) == seq![piece@] + lines_of(
                    cs@.skip(i + 1),
                ));
                assert(views(r@.push(piece)) =~= views(r@).push(piece@));
                assert(views(r@) + (seq![piece@] + lines_of(cs@.skip(i + 1))) =~= views(
                    r@,
                ).push(piece@) + lines_of(cs@.skip(i + 1)));
            }
            r.push(piece);
            start = i + 1;
        }
        i = i + 1;
    }
    proof {
        lemma_split_none(cs@, start as int, '\n');
    }
    if start < cs.len() {
        let last = sub_vec(cs, start, cs.len());
        proof {
            assert(cs@.subrange(start as int, cs.len() as int) =~= cs@.skip(start as int));
            assert(lines_of(cs@.skip(start as int)) == seq![last@]);
            assert(views(r@.push(last)) =~= views(r@) + seq![last@]);
        }
        r.push(last);
    } else {
        assert(lines_of(cs@.skip(start as int)) =~= Seq::<Seq<char>>::empty());
        assert(views(r@) + Seq::<Seq<char>>::empty() =~= views(r@));
    }
    r
}


/// Position of the first whitespace character of `cs[lo..hi]` (or `hi`).
fn find_ws(cs: &Vec<char>, lo: usize, hi: usize) -> (k: usize)
    requires
        lo <= hi <= cs.len(),
    ensures
        lo <= k <= hi,
        k - lo == first_index(cs@.subrange(lo as int, hi as int), ws_pred()),
{
    let mut k = lo;
    while k < hi && !is_whitespace(cs[k])
        invariant
            lo <= k <= hi <= cs.len(),
            forall|i: int| lo <= i < k ==> !is_ws(#[trigger] cs@[i]),
        decreases hi - k,
    {
        k = k + 1;
    }
    let ghost sub = cs@.subrange(lo as int, hi as int);
    proof {
        assert forall|i: int| 0 <= i < k - lo implies !ws_pred()(#[trigger] sub[i]) by {
            assert(sub[i] == cs@[lo + i]);
        }
        lemma_first_index_is(sub, ws_pred(), k - lo);
    }
    k
}

/// The maximal runs of non-whitespace characters of `cs` (`str::split_whitespace`).
pub fn words_chars(cs: &Vec<char>) -> (r: Vec<Vec<char>>)
    ensures
        views(r@) == words_of(cs@),
{
    let n = cs.len();
    let mut r: Vec<Vec<char>> = Vec::new();
    let mut i: usize = 0;
    assert(cs@.skip(0) =~= cs@);
    assert(views(r@) + words_of(cs@) =~= words_of(cs@));
    while i < n
        invariant
            n == cs.len(),
            i <= n,
            views(r@) + words_of(cs@.skip(i as int)) == words_of(cs@),
        decreases n - i,
    {
        let a = skip_ws(cs, i, n);
        assert(cs@.subrange(i as int, n as int) =~= cs@.skip(i as int));
        assert(cs@.skip(i as int).skip(a - i) =~= cs@.skip(a as int));
        if a == n {
            assert(words_of(cs@.skip(i as int)) =~= Seq::<Seq<char>>::empty());
            assert(words_of(cs@.skip(n as int)) =~= Seq::<Seq<char>>::empty());
            i = n;
        } else {
            let b = find_ws(cs, a, n);
            let piece = sub_vec(cs, a, b);
            proof {
                let t = cs@.skip(a as int);
                assert(cs@.subrange(a as int, n as int) =~= t);
                lemma_first_index(cs@.skip(i as int), non_ws_pred());
                assert(t[0] == cs@[a as int]);
                lemma_first_index(t, ws_pred());
                assert(b > a);
                assert(t.take(b - a) =~= piece@);
                assert(t.skip(b - a) =~= cs@.skip(b as int));
                assert(words_of(cs@.skip(i as int)) == seq![piece@] + words_of(
                    cs@.skip(b as int),
                ));
                assert(views(r@.push(piece)) =~= views(r@).push(piece@));
                assert(views(r@) + (seq![piece@] + words_of(cs@.skip(b as int))) =~= views(
                    r@,
                ).push(piece@) + words_of(cs@.skip(b as int)));
            }
            r.push(piece);
            i = b;
        }
    }
    assert(cs@.skip(n as int) =~= Seq::<char>::empty());
    assert(words_of(cs@.skip(n as int)) =~= Seq::<Seq<char>>::empty());
    assert(views(r@) + Seq::<Seq<char>>::empty() =~= views(r@));
    r
}

/// `cs` with every occurrence of `p` removed, left to right (`str::replace(p, "")`).
pub fn remove_all_chars(cs: &Vec<char>, p: &Vec<char>) -> (r: Vec<char>)
    ensures
        r@ == remove_all(cs@, p@),
{
    let n = cs.len();
    let mut r: Vec<char> = Vec::new();
    let mut i: usize = 0;
    assert(cs@.skip(0) =~= cs@);
    assert(r@ + remove_all(cs@, p@) =~= remove_all(cs@, p@));
    while i < n
        invariant
            n == cs.len(),
            i <= n,
            r@ + remove_all(cs@.skip(i as int), p@) == remove_all(cs@, p@),
        decreases n - i,
    {
        let ghost t = cs@.skip(i as int);
        if p.len() > 0 && p.len() <= n - i && occurs_at_exec(cs, p, i) {
            proof {
                assert(t.subrange(0, p.len() as int) =~= cs@.subrange(i as int, i + p.len()));
                assert(t.skip(p.len() as int) =~= cs@.skip(i + p.len()));
            }
            i = i + p.len();
        } else {
            proof {
                assert(t.drop_first() =~= cs@.skip(i + 1));
                if p.len() > 0 && p.len() <= n - i {
                    assert(t.subrange(0, p.len() as int) =~= cs@.subrange(i as int, i + p.len()));
                    assert(remove_all(t, p@) == seq![t[0]] + remove_all(t.drop_first(), p@));
                } else {
                    assert(remove_all(t, p@) == t);
                    assert(remove_all(t.drop_first(), p@) == t.drop_first());
                    assert(t =~= seq![t[0]] + t.drop_first());
                }
                assert(r@.push(cs[i as int]) + remove_all(cs@.skip(i + 1), p@) =~= r@ + (seq![t[0]]
                    + remove_all(t.drop_first(), p@)));
            }
            r.push(cs[i]);
            i = i + 1;
        }
    }
    assert(cs@.skip(n as int) =~= Seq::<char>::empty());
    assert(r@ + Seq::<char>::empty() =~= r@);
    r
}

/// `str::parse::<u64>` on the characters `cs`.
pub fn parse_u64_chars(cs: &Vec<char>) -> (r: Option<u64>)
    ensures
        r == parse_u64_spec(cs@),
{
    let n = cs.len();
    let start: usize = if n > 0 && cs[0] == '+' {
        1
    } else {
        0
    };
    let ghost d = if cs@.len() > 0 && cs@[0] == '+' {
        cs@.drop_first()
    } else {
        cs@
    };
    assert(d =~= cs@.subrange(start as int, n as int));
    if start == n {
        return None;
    }
    let mut v: u64 = 0;
    let mut overflow = false;
    let mut i = start;
    while i < n
        invariant
            n == cs.len(),
            start <= i <= n,
            d == cs@.subrange(start as int, n as int),
            d == (if cs@.len() > 0 && cs@[0] == '+' {
                cs@.drop_first()
            } else {
                cs@
            }),
            all_digits(cs@.subrange(start as int, i as int)),
            !overflow ==> v == digits_value(cs@.subrange(start as int, i as int)),
            overflow ==> digits_value(cs@.subrange(start as int, i as int)) > u64::MAX,
        decreases n - i,
    {
        let c = cs[i];
        if !('0' <= c && c <= '9') {
            assert(d[i - start] == c);
            assert(!all_digits(d));
            return None;
        }
        let ghost pre = cs@.subrange(start as int, i as int);
        assert(cs@.subrange(start as int, i + 1).drop_last() =~= pre);
        let dv = ((c as u32) - ('0' as u32)) as u64;
        if !overflow {
            let w: u128 = (v as u128) * 10 + (dv as u128);
            if w > (u64::MAX as u128) {
                overflow = true;
            } else {
                v = w as u64;
            }
        }
        i = i + 1;
    }
    assert(cs@.subrange(start as int, n as int) =~= d);
    if overflow {
        None
    } else {
        Some(v)
    }
}


/// `cs` with leading and trailing whitespace removed.
pub fn trim_chars(cs: &Vec<char>) -> (r: Vec<char>)
    ensures
        r@ == trim(cs@),
{
    let (lo, hi) = trim_bounds(cs, 0, cs.len());
    assert(cs@.subrange(0, cs.len() as int) =~= cs@);
    sub_vec(cs, lo, hi)
}

/// What follows the first `c` in `cs`, or nothing.
pub fn after_first_chars(cs: &Vec<char>, c: char) -> (r: Vec<char>)
    ensures
        r@ == after_first(cs@, c),
{
    let p = splitn_chars(cs, 2, c);
    assert(views(p@).len() == p@.len());
    if p.len() > 1 {
        let r = sub_vec(&p[1], 0, p[1].len());
        assert(p[1]@.subrange(0, p[1]@.len() as int) =~= p[1]@);
        assert(views(p@)[1] == p@[1]@);
        r
    } else {
        Vec::new()
    }
}

/// The second piece of `cs` split at `c`, or nothing.
pub fn second_piece_chars(cs: &Vec<char>, c: char) -> (r: Vec<char>)
    ensures
        r@ == second_piece(cs@, c),
{
    let p = split_chars(cs, c);
    assert(views(p@).len() == p@.len());
    if p.len() > 1 {
        let r = sub_vec(&p[1], 0, p[1].len());
        assert(p[1]@.subrange(0, p[1]@.len() as int) =~= p[1]@);
        assert(views(p@)[1] == p@[1]@);
        r
    } else {
        Vec::new()
    }
}

/// The lowercased text of each line (`str::to_lowercase` on each).
pub fn lower_lines(ls: &Vec<Vec<char>>) -> (r: Vec<Vec<char>>)
    ensures
        views(r@) == lowered(views(ls@)),
        ascii_lowered(views(ls@)),
{
    let mut r: Vec<Vec<char>> = Vec::new();
    let mut i: usize = 0;
    while i < ls.len()
        invariant
            i <= ls.len(),
            views(r@) == lowered(views(ls@)).take(i as int),
            ascii_lowered(views(ls@).take(i as int)),
        decreases ls.len() - i,
    {
        let s = string_of(&ls[i]);
        let l = lowercase(s.as_str());
        let lc = chars_of(l.as_str());
        let ghost before = r@;
        r.push(lc);
        assert(views(r@) =~= views(before).push(spec_lowercase(ls@[i as int]@)));
        assert(lowered(views(ls@)).take(i + 1) =~= lowered(views(ls@)).take(i as int).push(
            spec_lowercase(ls@[i as int]@),
        ));
        assert(views(ls@).take(i + 1) =~= views(ls@).take(i as int).push(ls@[i as int]@));
        i = i + 1;
    }
    assert(lowered(views(ls@)).take(ls.len() as int) =~= lowered(views(ls@)));
    assert(views(ls@).take(ls.len() as int) =~= views(ls@));
    r
}

/// The lines of the text that `bytes` decode to (`String::from_utf8_lossy`, then
/// `str::lines`).
pub fn text_lines(bytes: &[u8]) -> (r: Vec<Vec<char>>)
    ensures
        views(r@) == lines_of(spec_utf8_lossy(bytes@)),
{
    let t = utf8_lossy(bytes);
    let cs = chars_of(t.as_str());
    lines_chars(&cs)
}


/// Each string lowercased (`str::to_lowercase`).
pub fn lowered_strings(v: &Vec<String>) -> (r: Vec<String>)
    ensures
        string_views(r@) == lowered(string_views(v@)),
        ascii_lowered(string_views(v@)),
{
    let mut r: Vec<String> = Vec::new();
    let mut i: usize = 0;
    while i < v.len()
        invariant
            i <= v.len(),
            string_views(r@) == lowered(string_views(v@)).take(i as int),
            ascii_lowered(string_views(v@).take(i as int)),
        decreases v.len() - i,
    {
        let l = lowercase(v[i].as_str());
        let ghost before = r@;
        r.push(l);
        assert(string_views(r@) =~= string_views(before).push(
            spec_lowercase(v@[i as int]@),
        ));
        assert(lowered(string_views(v@)).take(i + 1) =~= lowered(
            string_views(v@),
        ).take(i as int).push(spec_lowercase(v@[i as int]@)));
        assert(string_views(v@).take(i + 1) =~= string_views(v@).take(i as int).push(v@[i as int]@));
        i = i + 1;
    }
    assert(lowered(string_views(v@)).take(v.len() as int) =~= lowered(
        string_views(v@),
    ));
    assert(string_views(v@).take(v.len() as int) =~= string_views(v@));
    r
}

/// The first position of `names` that holds `name`.
pub fn position_of(names: &Vec<String>, name: &String) -> (r: Option<usize>)
    ensures
        match r {
            Some(i) => i < names.len() && names@[i as int]@ == name@ && forall|j: int|
                0 <= j < i ==> #[trigger] names@[j]@ != name@,
            None => forall|j: int| 0 <= j < names.len() ==> #[trigger] names@[j]@ != name@,
        },
{
    let mut i: usize = 0;
    while i < names.len()
        invariant
            i <= names.len(),
            forall|j: int| 0 <= j < i ==> #[trigger] names@[j]@ != name@,
        decreases names.len() - i,
    {
        if names[i] == *name {
            return Some(i);
        }
        i = i + 1;
    }
    None
}

/// `s` with leading and trailing whitespace removed (`str::trim`).
pub fn trim_str(s: &str) -> (r: String)
    ensures
        r@ == trim(s@),
{
    let cs = chars_of(s);
    let (lo, hi) = trim_bounds(&cs, 0, cs.len());
    assert(cs@.subrange(0, cs.len() as int) =~= cs@);
    string_of_range(&cs, lo, hi)
}

/// Bounds of the trimmed part of `cs[lo..hi]`.
pub fn trim_bounds(cs: &Vec<char>, lo: usize, hi: usize) -> (r: (usize, usize))
    requires
        lo <= hi <= cs.len(),
    ensures
        lo <= r.0 <= r.1 <= hi,
        cs@.subrange(r.0 as int, r.1 as int) == trim(cs@.subrange(lo as int, hi as int)),
{
    let a = skip_ws(cs, lo, hi);
    let b = skip_ws_back(cs, a, hi);
    assert(cs@.subrange(lo as int, hi as int).skip(a - lo) =~= cs@.subrange(a as int, hi as int));
    (a, b)
}

/// `p` occurs in `cs` at position `i`.
fn occurs_at_exec(cs: &Vec<char>, p: &Vec<char>, i: usize) -> (r: bool)
    requires
        i + p.len() <= cs.len(),
    ensures
        r == occurs_at(cs@, p@, i as int),
{
    let mut j: usize = 0;
    while j < p.len()
        invariant
            i + p.len() <= cs.len(),
            j <= p.len(),
            forall|k: int| 0 <= k < j ==> cs@[i + k] == p@[k],
        decreases p.len() - j,
    {
        if cs[i + j] != p[j] {
            assert(cs@.subrange(i as int, i + p.len())[j as int] != p@[j as int]);
            return false;
        }
        j = j + 1;
    }
    assert(cs@.subrange(i as int, i + p.len()) =~= p@);
    true
}

/// Whether `p` occurs in `cs`.
pub fn contains_chars(cs: &Vec<char>, p: &Vec<char>) -> (r: bool)
    ensures
        r == contains(cs@, p@),
{
    if p.len() > cs.len() {
        return false;
    }
    if p.len() == 0 {
        assert(cs@.subrange(0, 0) =~= p@);
        assert(occurs_at(cs@, p@, 0));
        return true;
    }
    let last = cs.len() - p.len();
    let mut i: usize = 0;
    while i <= last
        invariant
            last == cs.len() - p.len(),
            last < cs.len(),
            i <= last + 1,
            forall|k: int| 0 <= k < i ==> !occurs_at(cs@, p@, k),
        decreases last + 1 - i,
    {
        if occurs_at_exec(cs, p, i) {
            return true;
        }
        i = i + 1;
    }
    false
}

/// Whether `p` occurs in `s` (`str::contains`).
pub fn str_contains(s: &str, p: &str) -> (r: bool)
    ensures
        r == contains(s@, p@),
{
    let cs = chars_of(s);
    let ps = chars_of(p);
    contains_chars(&cs, &ps)
}

/// Whether `cs` begins with `p`.
pub fn starts_with_chars(cs: &Vec<char>, p: &Vec<char>) -> (r: bool)
    ensures
        r == starts_with(cs@, p@),
{
    if p.len() > cs.len() {
        false
    } else {
        occurs_at_exec(cs, p, 0)
    }
}

/// Whether `s` begins with `p` (`str::starts_with`).
pub fn str_starts_with(s: &str, p: &str) -> (r: bool)
    ensures
        r == starts_with(s@, p@),
{
    let cs = chars_of(s);
    let ps = chars_of(p);
    starts_with_chars(&cs, &ps)
}

} // verus!

//! Character-level text handling shared by the command parser, the editors and
//! the sorted listings: whitespace, tokenising, integer parsing and ordering.
use vstd::prelude::*;

verus! {

/// Unicode `White_Space`: the characters `char::is_whitespace` accepts.
pub open spec fn is_whitespace_spec(c: char) -> bool {
    let u = c as u32;
    ||| 0x09 <= u <= 0x0D
    ||| u == 0x20
    ||| u == 0x85
    ||| u == 0xA0
    ||| u == 0x1680
    ||| 0x2000 <= u <= 0x200A
    ||| u == 0x2028
    ||| u == 0x2029
    ||| u == 0x202F
    ||| u == 0x205F
    ||| u == 0x3000
}

/// Whether `c` is a Unicode white-space character.
pub fn is_whitespace(c: char) -> (b: bool)
    ensures
        b == is_whitespace_spec(c),
{
    let u = c as u32;
    (0x09 <= u && u <= 0x0D) || u == 0x20 || u == 0x85 || u == 0xA0 || u == 0x1680 || (0x2000
        <= u && u <= 0x200A) || u == 0x2028 || u == 0x2029 || u == 0x202F || u == 0x205F || u
        == 0x3000
}

/// Copies the characters of a string slice into a vector.
pub fn chars_of(s: &str) -> (v: Vec<char>)
    ensures
        v@ == s@,
{
    let mut v: Vec<char> = Vec::new();
    for c in it: s.chars()
        invariant
            v@ == it.seq().take(it.index() as int),
    {
        v.push(c);
    }
    v
}

/// Builds a string holding exactly the given characters.
#[verifier::external_body]
pub fn string_from_chars(chars: &Vec<char>) -> (s: String)
    ensures
        s@ == chars@,
{
    chars.iter().collect()
}

/// The words of `s` scanned from the left: the words finished so far and the
/// word being read.
pub open spec fn word_scan(s: Seq<char>) -> (Seq<Seq<char>>, Seq<char>)
    decreases s.len(),
{
    if s.len() == 0 {
        (seq![], seq![])
    } else {
        let (done, cur) = word_scan(s.drop_last());
        let c = s.last();
        if is_whitespace_spec(c) {
            if cur.len() > 0 {
                (done.push(cur), seq![])
            } else {
                (done, seq![])
            }
        } else {
            (done, cur.push(c))
        }
    }
}

/// The maximal runs of non-white-space characters of `s`, in order.
pub open spec fn words_spec(s: Seq<char>) -> Seq<Seq<char>> {
    let (done, cur) = word_scan(s);
    if cur.len() > 0 {
        done.push(cur)
    } else {
        done
    }
}

/// The views of a vector of character vectors.
pub open spec fn views_of(v: Seq<Vec<char>>) -> Seq<Seq<char>> {
    v.map_values(|w: Vec<char>| w@)
}

/// Splits `s` into its white-space separated words.
pub fn split_whitespace(s: &str) -> (words: Vec<Vec<char>>)
    ensures
        views_of(words@) == words_spec(s@),
{
    let chars = chars_of(s);
    let mut done: Vec<Vec<char>> = Vec::new();
    let mut cur: Vec<char> = Vec::new();
    let mut i: usize = 0;
    while i < chars.len()
        invariant
            chars@ == s@,
            i <= chars.len(),
            (views_of(done@), cur@) == word_scan(chars@.take(i as int)),
        decreases chars.len() - i,
    {
        let c = chars[i];
        assert(chars@.take(i + 1).drop_last() == chars@.take(i as int));
        if is_whitespace(c) {
            if cur.len() > 0 {
                let w = cur;
                done.push(w);
                cur = Vec::new();
                assert(views_of(done@) == views_of(done@.drop_last()).push(w@));
            } else {
                cur = Vec::new();
            }
        } else {
            cur.push(c);
        }
        i = i + 1;
    }
    assert(chars@.take(i as int) == chars@);
    if cur.len() > 0 {
        let w = cur;
        done.push(w);
        assert(views_of(done@) == views_of(done@.drop_last()).push(w@));
    }
    done
}

/// Whether two character vectors hold the same characters.
pub fn chars_equal(a: &Vec<char>, b: &Vec<char>) -> (eq: bool)
    ensures
        eq == (a@ == b@),
{
    if a.len() != b.len() {
        return false;
    }
    let mut i: usize = 0;
    while i < a.len()
        invariant
            a.len() == b.len(),
            i <= a.len(),
            forall|j: int| 0 <= j < i ==> a@[j] == b@[j],
        decreases a.len() - i,
    {
        if a[i] != b[i] {
            return false;
        }
        i = i + 1;
    }
    assert(a@ =~= b@);
    true
}

/// Whether a word is exactly the given literal.
pub fn is_word(word: &Vec<char>, literal: &str) -> (eq: bool)
    ensures
        eq == (word@ == literal@),
{
    let lit = chars_of(literal);
    chars_equal(word, &lit)
}


/// An ASCII decimal digit.
pub open spec fn is_digit_spec(c: char) -> bool {
    0x30 <= (c as u32) <= 0x39
}

/// The value of a run of decimal digits.
pub open spec fn digits_value(s: Seq<char>) -> nat
    decreases s.len(),
{
    if s.len() == 0 {
        0
    } else {
        digits_value(s.drop_last()) * 10 + ((s.last() as u32) - 0x30) as nat
    }
}

/// The text of an unsigned number once an optional leading `+` is dropped.
pub open spec fn unsigned_digits(s: Seq<char>) -> Seq<char> {
    if s.len() > 0 && s[0] == '+' {
        s.drop_first()
    } else {
        s
    }
}

/// What `str::parse::<u32>` gives: an optional leading `+`, then one or more
/// decimal digits whose value fits in a `u32`.
pub open spec fn parse_u32_spec(s: Seq<char>) -> Option<u32> {
    let body = unsigned_digits(s);
    if body.len() > 0 && (forall|i: int| 0 <= i < body.len() ==> is_digit_spec(#[trigger] body[i]))
        && digits_value(body) <= u32::MAX {
        Some(digits_value(body) as u32)
    } else {
        None
    }
}

proof fn lemma_digits_value_grows(s: Seq<char>, i: int)
    requires
        0 <= i <= s.len(),
        forall|k: int| 0 <= k < s.len() ==> is_digit_spec(#[trigger] s[k]),
    ensures
        digits_value(s.take(i)) <= digits_value(s),
    decreases s.len() - i,
{
    if i < s.len() {
        lemma_digits_value_grows(s, i + 1);
        assert(s.take(i + 1).drop_last() == s.take(i));
    } else {
        assert(s.take(i) == s);
    }
}

/// Parses a decimal `u32` the way `str::parse::<u32>` does.
pub fn parse_u32(text: &Vec<char>) -> (n: Option<u32>)
    ensures
        n == parse_u32_spec(text@),
{
    let start: usize = if text.len() > 0 && text[0] == '+' {
        1
    } else {
        0
    };
    let ghost body = unsigned_digits(text@);
    assert(body == text@.skip(start as int));
    if start >= text.len() {
        return None;
    }
    let mut value: u64 = 0;
    let mut i: usize = start;
    while i < text.len()
        invariant
            start <= i <= text.len(),
            body == text@.skip(start as int),
            body == unsigned_digits(text@),
            value == digits_value(body.take(i - start)),
            value <= u32::MAX,
            forall|k: int| 0 <= k < i - start ==> is_digit_spec(#[trigger] body[k]),
        decreases text.len() - i,
    {
        let c = text[i];
        let code = c as u32;
        if code < 0x30 || code > 0x39 {
            assert(!is_digit_spec(body[i - start]));
            return None;
        }
        assert(body.take(i - start + 1).drop_last() == body.take(i - start));
        value = value * 10 + (code - 0x30) as u64;
        i = i + 1;
        if value > 0xFFFF_FFFF {
            proof {
                if forall|k: int| 0 <= k < body.len() ==> is_digit_spec(#[trigger] body[k]) {
                    lemma_digits_value_grows(body, i - start);
                }
            }
            return None;
        }
    }
    assert(body.take(i - start) == body);
    Some(value as u32)
}

/// A sign character.
pub open spec fn is_sign(c: char) -> bool {
    c == '+' || c == '-'
}

/// An exponent marker, in either case.
pub open spec fn is_exp_mark(c: char) -> bool {
    c == 'e' || c == 'E'
}

/// One or more decimal digits.
pub open spec fn digit_run(s: Seq<char>) -> bool {
    s.len() > 0 && forall|i: int| 0 <= i < s.len() ==> is_digit_spec(#[trigger] s[i])
}

/// An optional sign followed by one or more decimal digits.
pub open spec fn signed_digit_run(s: Seq<char>) -> bool {
    if s.len() > 0 && is_sign(s[0]) {
        digit_run(s.drop_first())
    } else {
        digit_run(s)
    }
}

/// Decimal digits with at most one point among them and at least one digit:
/// the forms `d+`, `d+.`, `d+.d+` and `.d+`.
pub open spec fn mantissa_text(s: Seq<char>) -> bool {
    &&& forall|i: int| 0 <= i < s.len() ==> is_digit_spec(#[trigger] s[i]) || s[i] == '.'
    &&& forall|i: int, j: int|
        #![trigger s[i], s[j]]
        0 <= i < j < s.len() && s[i] == '.' ==> s[j] != '.'
    &&& exists|i: int| 0 <= i < s.len() && is_digit_spec(#[trigger] s[i])
}

/// A decimal number: a mantissa, then optionally an exponent marker and a
/// signed run of digits.
pub open spec fn number_text(s: Seq<char>) -> bool {
    ||| mantissa_text(s)
    ||| exists|k: int|
        0 <= k < s.len() && is_exp_mark(#[trigger] s[k]) && mantissa_text(s.take(k))
            && signed_digit_run(s.skip(k + 1))
}

/// The code of `c`, an upper-case ASCII letter being lowered.
pub open spec fn ascii_lower_code(c: char) -> u32 {
    if 0x41 <= (c as u32) <= 0x5A {
        ((c as u32) + 32) as u32
    } else {
        c as u32
    }
}

/// `s` spells the lower-case word `w` when ASCII case is ignored.
pub open spec fn spells_ignoring_case(s: Seq<char>, w: Seq<char>) -> bool {
    s.len() == w.len() && forall|i: int|
        0 <= i < s.len() ==> ascii_lower_code(#[trigger] s[i]) == (w[i] as u32)
}

/// The texts `str::parse::<f64>` accepts: an optional sign, then `inf`,
/// `infinity` or `nan` in any case, or a decimal number.
pub open spec fn float_text_spec(s: Seq<char>) -> bool {
    let body = if s.len() > 0 && is_sign(s[0]) {
        s.drop_first()
    } else {
        s
    };
    ||| spells_ignoring_case(body, "inf"@)
    ||| spells_ignoring_case(body, "infinity"@)
    ||| spells_ignoring_case(body, "nan"@)
    ||| number_text(body)
}

/// Whether `c` is an ASCII decimal digit.
fn is_digit_char(c: char) -> (b: bool)
    ensures
        b == is_digit_spec(c),
{
    let u = c as u32;
    0x30 <= u && u <= 0x39
}

/// Whether the characters `lo..hi` of `v` are one or more digits.
fn digit_run_in(v: &Vec<char>, lo: usize, hi: usize) -> (b: bool)
    requires
        lo <= hi <= v@.len(),
    ensures
        b == digit_run(v@.subrange(lo as int, hi as int)),
{
    let ghost s = v@.subrange(lo as int, hi as int);
    if lo == hi {
        return false;
    }
    let mut i: usize = lo;
    while i < hi
        invariant
            lo <= i <= hi <= v@.len(),
            s == v@.subrange(lo as int, hi as int),
            forall|k: int| 0 <= k < i - lo ==> is_digit_spec(#[trigger] s[k]),
        decreases hi - i,
    {
        assert(s[i - lo] == v@[i as int]);
        if !is_digit_char(v[i]) {
            return false;
        }
        i = i + 1;
    }
    true
}

/// Whether the characters `lo..hi` of `v` are an optional sign and one or
/// more digits.
fn signed_digit_run_in(v: &Vec<char>, lo: usize, hi: usize) -> (b: bool)
    requires
        lo <= hi <= v@.len(),
    ensures
        b == signed_digit_run(v@.subrange(lo as int, hi as int)),
{
    let ghost s = v@.subrange(lo as int, hi as int);
    if lo < hi && (v[lo] == '+' || v[lo] == '-') {
        assert(s.drop_first() =~= v@.subrange(lo + 1, hi as int));
        digit_run_in(v, lo + 1, hi)
    } else {
        digit_run_in(v, lo, hi)
    }
}

/// Whether the characters `lo..hi` of `v` are a mantissa.
fn mantissa_in(v: &Vec<char>, lo: usize, hi: usize) -> (b: bool)
    requires
        lo <= hi <= v@.len(),
    ensures
        b == mantissa_text(v@.subrange(lo as int, hi as int)),
{
    let ghost s = v@.subrange(lo as int, hi as int);
    let mut dot = false;
    let mut digit = false;
    let mut i: usize = lo;
    while i < hi
        invariant
            lo <= i <= hi <= v@.len(),
            s == v@.subrange(lo as int, hi as int),
            forall|k: int| 0 <= k < i - lo ==> is_digit_spec(#[trigger] s[k]) || s[k] == '.',
            forall|a: int, c: int|
                #![trigger s[a], s[c]]
                0 <= a < c < i - lo && s[a] == '.' ==> s[c] != '.',
            dot <==> exists|k: int| 0 <= k < i - lo && #[trigger] s[k] == '.',
            digit <==> exists|k: int| 0 <= k < i - lo && is_digit_spec(#[trigger] s[k]),
        decreases hi - i,
    {
        let c = v[i];
        let ghost j = i - lo;
        assert(s[j] == c);
        if c == '.' {
            if dot {
                proof {
                    let a = choose|k: int| 0 <= k < j && #[trigger] s[k] == '.';
                    assert(s[a] == '.' && s[j] == '.');
                }
                return false;
            }
            dot = true;
        } else if is_digit_char(c) {
            digit = true;
        } else {
            return false;
        }
        i = i + 1;
        proof {
            assert forall|a: int, b: int|
                #![trigger s[a], s[b]]
                0 <= a < b < i - lo && s[a] == '.' implies s[b] != '.' by {
                if b == j && c == '.' {
                    assert(!(exists|k: int| 0 <= k < j && #[trigger] s[k] == '.'));
                    assert(0 <= a < j);
                }
            }
            if c == '.' {
                assert(s[j] == '.');
            }
            if is_digit_spec(c) {
                assert(is_digit_spec(s[j]));
            }
        }
    }
    if !digit {
        assert(!(exists|k: int| 0 <= k < s.len() && is_digit_spec(#[trigger] s[k])));
    }
    digit
}

/// The first position from `lo` on that holds an exponent marker, or the
/// length of `v` when there is none.
fn exp_index(v: &Vec<char>, lo: usize) -> (k: usize)
    requires
        lo <= v@.len(),
    ensures
        lo <= k <= v@.len(),
        forall|j: int| lo <= j < k ==> !is_exp_mark(#[trigger] v@[j]),
        k < v@.len() ==> is_exp_mark(v@[k as int]),
{
    let mut i: usize = lo;
    while i < v.len()
        invariant
            lo <= i <= v@.len(),
            forall|j: int| lo <= j < i ==> !is_exp_mark(#[trigger] v@[j]),
        decreases v@.len() - i,
    {
        if v[i] == 'e' || v[i] == 'E' {
            return i;
        }
        i = i + 1;
    }
    i
}

/// Whether the characters of `v` from `lo` on are a decimal number.
fn number_in(v: &Vec<char>, lo: usize) -> (b: bool)
    requires
        lo <= v@.len(),
    ensures
        b == number_text(v@.subrange(lo as int, v@.len() as int)),
{
    let ghost s = v@.subrange(lo as int, v@.len() as int);
    let k = exp_index(v, lo);
    if k == v.len() {
        let b = mantissa_in(v, lo, k);
        proof {
            assert forall|j: int| 0 <= j < s.len() implies !is_exp_mark(#[trigger] s[j]) by {
                assert(s[j] == v@[lo + j]);
            }
        }
        b
    } else {
        let ghost kk = k - lo;
        assert(s[kk] == v@[k as int]);
        assert(!mantissa_text(s)) by {
            assert(!(is_digit_spec(s[kk]) || s[kk] == '.'));
        }
        assert(s.take(kk) =~= v@.subrange(lo as int, k as int));
        assert(s.skip(kk + 1) =~= v@.subrange(k + 1, v@.len() as int));
        let a = mantissa_in(v, lo, k);
        let b = signed_digit_run_in(v, k + 1, v.len());
        proof {
            if a && b {
                assert(is_exp_mark(s[kk]));
            } else {
                assert forall|j: int|
                    0 <= j < s.len() && is_exp_mark(#[trigger] s[j]) && mantissa_text(s.take(j))
                        implies !signed_digit_run(s.skip(j + 1)) by {
                    if j < kk {
                        assert(s[j] == v@[lo + j]);
                    } else if j > kk {
                        assert(s.take(j)[kk] == s[kk]);
                        assert(!(is_digit_spec(s.take(j)[kk]) || s.take(j)[kk] == '.'));
                    }
                }
            }
        }
        a && b
    }
}

/// Whether the characters of `v` from `lo` on spell the lower-case word `w`,
/// ignoring ASCII case.
fn spells_in(v: &Vec<char>, lo: usize, w: &Vec<char>) -> (b: bool)
    requires
        lo <= v@.len(),
    ensures
        b == spells_ignoring_case(v@.subrange(lo as int, v@.len() as int), w@),
{
    let ghost s = v@.subrange(lo as int, v@.len() as int);
    if v.len() - lo != w.len() {
        return false;
    }
    let mut i: usize = lo;
    while i < v.len()
        invariant
            lo <= i <= v@.len(),
            s.len() == w@.len(),
            lo + w@.len() == v@.len(),
            s == v@.subrange(lo as int, v@.len() as int),
            forall|k: int| 0 <= k < i - lo ==> ascii_lower_code(#[trigger] s[k]) == (w@[k] as u32),
        decreases v@.len() - i,
    {
        let c = v[i];
        assert(s[i - lo] == c);
        let u = c as u32;
        let l: u32 = if 0x41 <= u && u <= 0x5A {
            u + 32
        } else {
            u
        };
        if l != w[i - lo] as u32 {
            return false;
        }
        i = i + 1;
    }
    true
}

/// Whether `str::parse::<f64>` accepts the text.
pub fn is_float_text(text: &Vec<char>) -> (b: bool)
    ensures
        b == float_text_spec(text@),
{
    let lo: usize = if text.len() > 0 && (text[0] == '+' || text[0] == '-') {
        1
    } else {
        0
    };
    let ghost body = if text@.len() > 0 && is_sign(text@[0]) {
        text@.drop_first()
    } else {
        text@
    };
    assert(body =~= text@.subrange(lo as int, text@.len() as int));
    let inf = chars_of("inf");
    let infinity = chars_of("infinity");
    let nan = chars_of("nan");
    spells_in(text, lo, &inf) || spells_in(text, lo, &infinity) || spells_in(text, lo, &nan)
        || number_in(text, lo)
}

/// Strict lexicographic order on character sequences, by code point.
pub open spec fn seq_lt(a: Seq<char>, b: Seq<char>) -> bool
    decreases a.len(),
{
    if a.len() == 0 {
        b.len() > 0
    } else if b.len() == 0 {
        false
    } else if a[0] != b[0] {
        (a[0] as u32) < (b[0] as u32)
    } else {
        seq_lt(a.drop_first(), b.drop_first())
    }
}

/// No sequence comes before itself.
pub proof fn lemma_seq_lt_irreflexive(a: Seq<char>)
    ensures
        !seq_lt(a, a),
    decreases a.len(),
{
    if a.len() > 0 {
        lemma_seq_lt_irreflexive(a.drop_first());
    }
}

/// The lexicographic order is transitive.
pub proof fn lemma_seq_lt_transitive(a: Seq<char>, b: Seq<char>, c: Seq<char>)
    requires
        seq_lt(a, b),
        seq_lt(b, c),
    ensures
        seq_lt(a, c),
    decreases a.len(),
{
    if a.len() > 0 && b.len() > 0 && c.len() > 0 {
        if a[0] == b[0] && b[0] == c[0] {
            lemma_seq_lt_transitive(a.drop_first(), b.drop_first(), c.drop_first());
        }
    }
}

/// Any two sequences are equal or ordered one way.
pub proof fn lemma_seq_lt_total(a: Seq<char>, b: Seq<char>)
    ensures
        seq_lt(a, b) || a == b || seq_lt(b, a),
    decreases a.len(),
{
    if a.len() > 0 && b.len() > 0 {
        vstd::utf8::char_u32_cast(a[0], a[0] as u32);
        vstd::utf8::char_u32_cast(b[0], b[0] as u32);
        if a[0] == b[0] {
            lemma_seq_lt_total(a.drop_first(), b.drop_first());
            if a.drop_first() == b.drop_first() {
                assert(a =~= seq![a[0]] + a.drop_first());
                assert(b =~= seq![b[0]] + b.drop_first());
            }
        }
    } else if a.len() == 0 && b.len() == 0 {
        assert(a =~= b);
    }
}

/// Whether `a` comes strictly before `b` in lexicographic order.
pub fn chars_lt(a: &Vec<char>, b: &Vec<char>) -> (lt: bool)
    ensures
        lt == seq_lt(a@, b@),
{
    let mut i: usize = 0;
    assert(a@.skip(0) == a@);
    assert(b@.skip(0) == b@);
    while i < a.len() && i < b.len()
        invariant
            i <= a.len(),
            i <= b.len(),
            seq_lt(a@, b@) == seq_lt(a@.skip(i as int), b@.skip(i as int)),
        decreases a.len() - i,
    {
        if a[i] != b[i] {
            return (a[i] as u32) < (b[i] as u32);
        }
        assert(a@.skip(i as int).drop_first() == a@.skip(i + 1));
        assert(b@.skip(i as int).drop_first() == b@.skip(i + 1));
        i = i + 1;
    }
    i < b.len()
}


/// A sort key: a rank compared first, then a text compared lexicographically.
pub struct SortKey {
    pub rank: u64,
    pub text: Vec<char>,
}

/// The mathematical value of a sort key.
pub open spec fn key_view(k: SortKey) -> (u64, Seq<char>) {
    (k.rank, k.text@)
}

/// The mathematical values of a sequence of sort keys.
pub open spec fn keys_view(keys: Seq<SortKey>) -> Seq<(u64, Seq<char>)> {
    keys.map_values(|k: SortKey| key_view(k))
}

/// Strict order on keys: by rank, then by text.
pub open spec fn key_lt(a: (u64, Seq<char>), b: (u64, Seq<char>)) -> bool {
    a.0 < b.0 || (a.0 == b.0 && seq_lt(a.1, b.1))
}

/// In a stable sort of `keys`, the item at index `x` comes before the one at `y`.
pub open spec fn precedes(keys: Seq<(u64, Seq<char>)>, x: int, y: int) -> bool {
    key_lt(keys[x], keys[y]) || (keys[x] == keys[y] && x < y)
}

/// `order` lists every index of `keys` once, in stably sorted key order.
pub open spec fn is_stable_order(keys: Seq<(u64, Seq<char>)>, order: Seq<usize>) -> bool {
    &&& order.len() == keys.len()
    &&& forall|i: int| 0 <= i < order.len() ==> #[trigger] order[i] < keys.len()
    &&& forall|i: int, j: int|
        0 <= i < j < order.len() ==> #[trigger] precedes(keys, order[i] as int, order[j] as int)
}

proof fn lemma_key_order(a: (u64, Seq<char>), b: (u64, Seq<char>), c: (u64, Seq<char>))
    ensures
        !key_lt(a, a),
        key_lt(a, b) && key_lt(b, c) ==> key_lt(a, c),
        key_lt(a, b) || a == b || key_lt(b, a),
{
    lemma_seq_lt_irreflexive(a.1);
    if a.0 == b.0 && b.0 == c.0 && seq_lt(a.1, b.1) && seq_lt(b.1, c.1) {
        lemma_seq_lt_transitive(a.1, b.1, c.1);
    }
    lemma_seq_lt_total(a.1, b.1);
}

/// Whether key `a` sorts strictly before key `b`.
pub fn key_less(a: &SortKey, b: &SortKey) -> (lt: bool)
    ensures
        lt == key_lt(key_view(*a), key_view(*b)),
{
    a.rank < b.rank || (a.rank == b.rank && chars_lt(&a.text, &b.text))
}

/// The stable sorting permutation of `keys`: position `i` of the result holds
/// the index of the item that a stable sort by key puts at position `i`.
pub fn stable_order(keys: &Vec<SortKey>) -> (order: Vec<usize>)
    ensures
        is_stable_order(keys_view(keys@), order@),
{
    let ghost kv = keys_view(keys@);
    let mut order: Vec<usize> = Vec::new();
    let mut n: usize = 0;
    while n < keys.len()
        invariant
            kv == keys_view(keys@),
            n <= keys.len(),
            order.len() == n,
            forall|i: int| 0 <= i < order.len() ==> #[trigger] order@[i] < n,
            forall|i: int, j: int|
                0 <= i < j < order.len() ==> #[trigger] precedes(kv, order@[i] as int, order@[j] as int),
        decreases keys.len() - n,
    {
        let mut p: usize = 0;
        while p < order.len() && !key_less(&keys[n], &keys[order[p]])
            invariant
                kv == keys_view(keys@),
                n < keys.len(),
                order.len() == n,
                p <= order.len(),
                forall|i: int| 0 <= i < order.len() ==> #[trigger] order@[i] < n,
                forall|q: int| 0 <= q < p ==> !key_lt(kv[n as int], #[trigger] kv[order@[q] as int]),
            decreases order.len() - p,
        {
            p = p + 1;
        }
        let ghost old_order = order@;
        proof {
            assert forall|q: int| 0 <= q < p implies precedes(kv, old_order[q] as int, n as int) by {
                lemma_key_order(kv[n as int], kv[old_order[q] as int], kv[n as int]);
            }
            assert forall|q: int| p <= q < old_order.len() implies precedes(kv, n as int, old_order[q] as int) by {
                if q > p {
                    assert(precedes(kv, old_order[p as int] as int, old_order[q] as int));
                }
                lemma_key_order(kv[n as int], kv[old_order[p as int] as int], kv[old_order[q] as int]);
            }
        }
        order.insert(p, n);
        proof {
            assert forall|i: int, j: int| 0 <= i < j < order.len() implies
                #[trigger] precedes(kv, order@[i] as int, order@[j] as int) by {
                if j < p {
                    assert(precedes(kv, old_order[i] as int, old_order[j] as int));
                } else if j == p {
                } else if i < p {
                    assert(order@[j] == old_order[j - 1]);
                    if j - 1 < p {
                    } else {
                    }
                } else if i == p {
                } else {
                    assert(precedes(kv, old_order[i - 1] as int, old_order[j - 1] as int));
                }
            }
        }
        n = n + 1;
    }
    order
}


/// A stable order lists each index at most once.
pub proof fn lemma_stable_order_distinct(keys: Seq<(u64, Seq<char>)>, order: Seq<usize>, i: int, j: int)
    requires
        is_stable_order(keys, order),
        0 <= i < j < order.len(),
    ensures
        order[i] != order[j],
{
    assert(precedes(keys, order[i] as int, order[j] as int));
    lemma_key_order(keys[order[i] as int], keys[order[i] as int], keys[order[i] as int]);
}

/// A stable order lists every index of the keys.
pub proof fn lemma_stable_order_onto(keys: Seq<(u64, Seq<char>)>, order: Seq<usize>, k: int)
    requires
        is_stable_order(keys, order),
        0 <= k < keys.len(),
    ensures
        exists|p: int| 0 <= p < order.len() && order[p] == k,
{
    let as_int = order.map_values(|x: usize| x as int);
    assert forall|i: int, j: int| 0 <= i < as_int.len() && 0 <= j < as_int.len() && i != j
        implies as_int[i] != as_int[j] by {
        if i < j {
            lemma_stable_order_distinct(keys, order, i, j);
        } else {
            lemma_stable_order_distinct(keys, order, j, i);
        }
    }
    assert(as_int.no_duplicates());
    as_int.unique_seq_to_set();
    let range = vstd::set_lib::set_int_range(0, keys.len() as int);
    vstd::set_lib::lemma_int_range(0, keys.len() as int);
    assert(as_int.to_set().subset_of(range));
    vstd::seq_lib::seq_to_set_is_finite(as_int);
    vstd::set_lib::lemma_subset_equality(as_int.to_set(), range);
    assert(range.contains(k));
    assert(as_int.to_set().contains(k));
    let p = as_int.index_of(k);
    assert(order[p] == k);
}


/// `a` sorts no later than `b`.
pub open spec fn text_leq(a: Seq<char>, b: Seq<char>) -> bool {
    !seq_lt(b, a)
}

/// Lexicographic order is a total order.
pub proof fn lemma_text_leq_total_ordering()
    ensures
        vstd::relations::total_ordering(|a: Seq<char>, b: Seq<char>| text_leq(a, b)),
{
    let leq = |a: Seq<char>, b: Seq<char>| text_leq(a, b);
    assert forall|a: Seq<char>| #[trigger] leq(a, a) by {
        lemma_seq_lt_irreflexive(a);
    }
    assert forall|a: Seq<char>, b: Seq<char>| #[trigger] leq(a, b) && #[trigger] leq(b, a) implies a == b by {
        lemma_seq_lt_total(a, b);
    }
    assert forall|a: Seq<char>, b: Seq<char>, c: Seq<char>| #[trigger] leq(a, b) && #[trigger] leq(b, c) implies leq(a, c) by {
        lemma_seq_lt_total(a, b);
        lemma_seq_lt_total(b, c);
        if seq_lt(c, a) {
            if seq_lt(a, b) {
                lemma_seq_lt_transitive(c, a, b);
                if seq_lt(b, c) {
                    lemma_seq_lt_transitive(c, b, c);
                    lemma_seq_lt_irreflexive(c);
                }
            } else {
                assert(a == b);
            }
        }
    }
    assert forall|a: Seq<char>, b: Seq<char>| #[trigger] leq(a, b) || #[trigger] leq(b, a) by {
        if seq_lt(a, b) && seq_lt(b, a) {
            lemma_seq_lt_transitive(a, b, a);
            lemma_seq_lt_irreflexive(a);
        }
    }
    assert(vstd::relations::reflexive(leq));
    assert(vstd::relations::antisymmetric(leq));
    assert(vstd::relations::transitive(leq));
    assert(vstd::relations::strongly_connected(leq));
}

/// `words` sorted lexicographically.
pub open spec fn sorted_texts_spec(words: Seq<Seq<char>>) -> Seq<Seq<char>> {
    words.sort_by(|a: Seq<char>, b: Seq<char>| text_leq(a, b))
}

/// Sorts words lexicographically (equal words are indistinguishable).
pub fn sort_texts(words: &Vec<Vec<char>>) -> (sorted: Vec<Vec<char>>)
    ensures
        views_of(sorted@) == sorted_texts_spec(views_of(words@)),
{
    let ghost leq = |a: Seq<char>, b: Seq<char>| text_leq(a, b);
    let mut out: Vec<Vec<char>> = Vec::new();
    let mut i: usize = 0;
    proof {
        assert(views_of(out@) =~= views_of(words@.take(0)));
    }
    while i < words.len()
        invariant
            i <= words@.len(),
            leq == (|a: Seq<char>, b: Seq<char>| text_leq(a, b)),
            vstd::relations::sorted_by(views_of(out@), leq),
            views_of(out@).to_multiset() == views_of(words@.take(i as int)).to_multiset(),
        decreases words@.len() - i,
    {
        let w = words[i].clone();
        let mut p: usize = 0;
        while p < out.len() && !chars_lt(&w, &out[p])
            invariant
                p <= out@.len(),
                forall|q: int| 0 <= q < p ==> !seq_lt(w@, #[trigger] out@[q]@),
            decreases out@.len() - p,
        {
            p = p + 1;
        }
        let ghost before = views_of(out@);
        out.insert(p, w);
        proof {
            let after = views_of(out@);
            assert(after =~= before.insert(p as int, w@));
            assert forall|a: int, b: int| 0 <= a < b < after.len() implies #[trigger] leq(after[a], after[b]) by {
                if b < p {
                    assert(leq(before[a], before[b]));
                } else if b == p {
                    assert(after[a] == before[a]);
                } else if a < p {
                    assert(leq(before[a], before[b - 1]));
                    if p < before.len() {
                        lemma_text_leq_total_ordering();
                        assert(seq_lt(w@, before[p as int]));
                        if a < p as int {
                            assert(leq(before[a], w@));
                        }
                    }
                    lemma_text_leq_total_ordering();
                    assert(leq(before[a], w@));
                    assert(before[b - 1] == after[b]);
                    if b - 1 > p {
                        assert(leq(before[p as int], before[b - 1]));
                    }
                    lemma_seq_lt_total(w@, before[b - 1]);
                    if seq_lt(before[b - 1], w@) {
                        if b - 1 == p {
                            lemma_seq_lt_transitive(w@, before[p as int], w@);
                            lemma_seq_lt_irreflexive(w@);
                        } else {
                            lemma_seq_lt_total(before[p as int], before[b - 1]);
                            if seq_lt(before[p as int], before[b - 1]) {
                                lemma_seq_lt_transitive(w@, before[p as int], before[b - 1]);
                                lemma_seq_lt_transitive(w@, before[b - 1], w@);
                                lemma_seq_lt_irreflexive(w@);
                            } else {
                                lemma_seq_lt_transitive(w@, before[p as int], w@);
                                lemma_seq_lt_irreflexive(w@);
                            }
                        }
                    }
                } else if a == p {
                    assert(before[b - 1] == after[b]);
                    if b - 1 > p {
                        assert(leq(before[p as int], before[b - 1]));
                    }
                    lemma_seq_lt_total(w@, before[b - 1]);
                    if seq_lt(before[b - 1], w@) {
                        if b - 1 == p {
                            lemma_seq_lt_transitive(w@, before[p as int], w@);
                            lemma_seq_lt_irreflexive(w@);
                        } else {
                            lemma_seq_lt_total(before[p as int], before[b - 1]);
                            if seq_lt(before[p as int], before[b - 1]) {
                                lemma_seq_lt_transitive(w@, before[p as int], before[b - 1]);
                                lemma_seq_lt_transitive(w@, before[b - 1], w@);
                                lemma_seq_lt_irreflexive(w@);
                            } else {
                                lemma_seq_lt_transitive(w@, before[p as int], w@);
                                lemma_seq_lt_irreflexive(w@);
                            }
                        }
                    }
                } else {
                    assert(leq(before[a - 1], before[b - 1]));
                }
            }
            assert(after.remove(p as int) =~= before);
            broadcast use vstd::seq_lib::group_to_multiset_ensures;
            assert(after.to_multiset().remove(w@) =~= before.to_multiset());
            assert(after.to_multiset().count(w@) > 0);
            assert(after.to_multiset() =~= before.to_multiset().insert(w@));
            assert(words@.take(i + 1) =~= words@.take(i as int).push(words@[i as int]));
            assert(views_of(words@.take(i + 1)) =~= views_of(words@.take(i as int)).push(w@));
        }
        i = i + 1;
    }
    proof {
        assert(words@.take(i as int) =~= words@);
        lemma_text_leq_total_ordering();
        views_of(words@).lemma_sort_by_ensures(leq);
        vstd::seq_lib::lemma_sorted_unique(views_of(out@), views_of(words@).sort_by(leq), leq);
    }
    out
}

/// `s` without its leading white space.
pub open spec fn trim_start_spec(s: Seq<char>) -> Seq<char>
    decreases s.len(),
{
    if s.len() > 0 && is_whitespace_spec(s[0]) {
        trim_start_spec(s.drop_first())
    } else {
        s
    }
}

/// `s` without its trailing white space.
pub open spec fn trim_end_spec(s: Seq<char>) -> Seq<char>
    decreases s.len(),
{
    if s.len() > 0 && is_whitespace_spec(s.last()) {
        trim_end_spec(s.drop_last())
    } else {
        s
    }
}

/// `s` without leading and trailing white space, as `str::trim` gives it.
pub open spec fn trim_spec(s: Seq<char>) -> Seq<char> {
    trim_end_spec(trim_start_spec(s))
}

/// Removes leading and trailing white space.
pub fn trim(v: &Vec<char>) -> (t: Vec<char>)
    ensures
        t@ == trim_spec(v@),
{
    let n = v.len();
    let mut start: usize = 0;
    assert(v@.skip(0) =~= v@);
    while start < n && is_whitespace(v[start])
        invariant
            n == v@.len(),
            start <= n,
            trim_start_spec(v@) == trim_start_spec(v@.skip(start as int)),
        decreases n - start,
    {
        assert(v@.skip(start as int).drop_first() =~= v@.skip(start + 1));
        start = start + 1;
    }
    let ghost front = v@.skip(start as int);
    assert(trim_start_spec(front) == front);
    let mut end: usize = n;
    assert(v@.subrange(start as int, n as int) =~= front);
    while end > start && is_whitespace(v[end - 1])
        invariant
            n == v@.len(),
            start <= end <= n,
            front == v@.skip(start as int),
            trim_end_spec(front) == trim_end_spec(v@.subrange(start as int, end as int)),
        decreases end,
    {
        assert(v@.subrange(start as int, end as int).drop_last() =~= v@.subrange(
            start as int,
            end - 1,
        ));
        end = end - 1;
    }
    let mut t: Vec<char> = Vec::new();
    let mut k: usize = start;
    while k < end
        invariant
            start <= k <= end <= n,
            n == v@.len(),
            t@ == v@.subrange(start as int, k as int),
        decreases end - k,
    {
        t.push(v[k]);
        assert(v@.subrange(start as int, k + 1) =~= v@.subrange(start as int, k as int).push(
            v@[k as int],
        ));
        k = k + 1;
    }
    t
}

/// The comma-separated pieces of `s` read so far, trimmed, empty ones
/// dropped, and the piece being read.
pub open spec fn tag_scan(s: Seq<char>) -> (Seq<Seq<char>>, Seq<char>)
    decreases s.len(),
{
    if s.len() == 0 {
        (seq![], seq![])
    } else {
        let (done, cur) = tag_scan(s.drop_last());
        if s.last() == ',' {
            if trim_spec(cur).len() > 0 {
                (done.push(trim_spec(cur)), seq![])
            } else {
                (done, seq![])
            }
        } else {
            (done, cur.push(s.last()))
        }
    }
}

/// The comma-separated pieces of `s`, trimmed, without the empty ones.
pub open spec fn tags_spec(s: Seq<char>) -> Seq<Seq<char>> {
    let (done, cur) = tag_scan(s);
    if trim_spec(cur).len() > 0 {
        done.push(trim_spec(cur))
    } else {
        done
    }
}

/// Splits a comma-separated list into its trimmed, non-empty pieces.
pub fn split_tags(s: &str) -> (tags: Vec<Vec<char>>)
    ensures
        views_of(tags@) == tags_spec(s@),
{
    let chars = chars_of(s);
    let mut done: Vec<Vec<char>> = Vec::new();
    let mut cur: Vec<char> = Vec::new();
    let mut i: usize = 0;
    while i < chars.len()
        invariant
            chars@ == s@,
            i <= chars.len(),
            (views_of(done@), cur@) == tag_scan(chars@.take(i as int)),
        decreases chars.len() - i,
    {
        let c = chars[i];
        assert(chars@.take(i + 1).drop_last() == chars@.take(i as int));
        if c == ',' {
            let t = trim(&cur);
            if t.len() > 0 {
                let ghost before = done@;
                done.push(t);
                assert(views_of(done@) =~= views_of(before).push(t@));
            }
            cur = Vec::new();
        } else {
            cur.push(c);
        }
        i = i + 1;
    }
    assert(chars@.take(i as int) == chars@);
    let t = trim(&cur);
    if t.len() > 0 {
        let ghost before = done@;
        done.push(t);
        assert(views_of(done@) =~= views_of(before).push(t@));
    }
    done
}

/// The parts joined with `sep` between each two.
pub open spec fn join_spec(parts: Seq<Seq<char>>, sep: Seq<char>) -> Seq<char>
    decreases parts.len(),
{
    if parts.len() == 0 {
        Seq::empty()
    } else if parts.len() == 1 {
        parts[0]
    } else {
        join_spec(parts.drop_last(), sep) + sep + parts.last()
    }
}

/// Joins strings with a separator between each two.
pub fn join_strings(parts: &Vec<String>, sep: &str) -> (joined: String)
    ensures
        joined@ == join_spec(parts@.map_values(|p: String| p@), sep@),
{
    let ghost views = parts@.map_values(|p: String| p@);
    let sep_chars = chars_of(sep);
    let mut out: Vec<char> = Vec::new();
    let mut i: usize = 0;
    while i < parts.len()
        invariant
            i <= parts@.len(),
            views == parts@.map_values(|p: String| p@),
            sep_chars@ == sep@,
            out@ == join_spec(views.take(i as int), sep@),
        decreases parts@.len() - i,
    {
        assert(views.take(i + 1).drop_last() =~= views.take(i as int));
        if i > 0 {
            let mut k: usize = 0;
            let ghost start = out@;
            while k < sep_chars.len()
                invariant
                    k <= sep_chars@.len(),
                    out@ == start + sep_chars@.take(k as int),
                decreases sep_chars@.len() - k,
            {
                out.push(sep_chars[k]);
                assert(sep_chars@.take(k + 1) =~= sep_chars@.take(k as int).push(sep_chars@[k as int]));
                k = k + 1;
            }
            assert(sep_chars@.take(k as int) =~= sep_chars@);
        }
        let part = chars_of(parts[i].as_str());
        let ghost mid = out@;
        let mut k: usize = 0;
        while k < part.len()
            invariant
                k <= part@.len(),
                out@ == mid + part@.take(k as int),
            decreases part@.len() - k,
        {
            out.push(part[k]);
            assert(part@.take(k + 1) =~= part@.take(k as int).push(part@[k as int]));
            k = k + 1;
        }
        proof {
            assert(part@.take(k as int) =~= part@);
            assert(views[i as int] == part@);
            if i == 0 {
                assert(views.take(1) =~= seq![part@]);
                assert(out@ =~= part@);
            } else {
                assert(views.take(i + 1).last() == part@);
                assert(out@ =~= join_spec(views.take(i as int), sep@) + sep@ + part@);
            }
        }
        i = i + 1;
    }
    assert(views.take(i as int) =~= views);
    string_from_chars(&out)
}

/// Appends the characters of `s` to `out`.
pub fn append_chars(out: &mut Vec<char>, s: &Vec<char>)
    ensures
        final(out)@ == old(out)@ + s@,
{
    let mut k: usize = 0;
    while k < s.len()
        invariant
            k <= s@.len(),
            out@ == old(out)@ + s@.take(k as int),
        decreases s@.len() - k,
    {
        out.push(s[k]);
        assert(s@.take(k + 1) =~= s@.take(k as int).push(s@[k as int]));
        k = k + 1;
    }
    assert(s@.take(k as int) =~= s@);
}

/// The order in which texts are listed: by code point, equal texts keeping
/// their given order.
pub fn order_by_text(texts: &Vec<String>) -> (order: Vec<usize>)
    ensures
        is_stable_order(texts@.map_values(|t: String| (0u64, t@)), order@),
{
    let mut keys: Vec<SortKey> = Vec::new();
    let mut i: usize = 0;
    while i < texts.len()
        invariant
            i <= texts@.len(),
            keys_view(keys@) =~= texts@.take(i as int).map_values(|t: String| (0u64, t@)),
        decreases texts@.len() - i,
    {
        let text = chars_of(texts[i].as_str());
        let ghost before = keys@;
        keys.push(SortKey { rank: 0, text });
        assert(keys_view(keys@) =~= keys_view(before).push((0u64, texts@[i as int]@)));
        assert(texts@.take(i + 1) =~= texts@.take(i as int).push(texts@[i as int]));
        i = i + 1;
    }
    assert(texts@.take(i as int) =~= texts@);
    stable_order(&keys)
}

/// Sorting keeps the words: the sorted words are among the given ones, and
/// words given once each stay once each.
pub proof fn lemma_sorted_texts_keep_words(words: Seq<Seq<char>>)
    ensures
        forall|w: Seq<char>| #[trigger] sorted_texts_spec(words).contains(w) ==> words.contains(w),
        words.no_duplicates() ==> sorted_texts_spec(words).no_duplicates(),
{
    lemma_text_leq_total_ordering();
    let leq = |a: Seq<char>, b: Seq<char>| text_leq(a, b);
    words.lemma_sort_by_ensures(leq);
    let sorted = sorted_texts_spec(words);
    assert(sorted == words.sort_by(leq));
    if words.no_duplicates() {
        words.lemma_multiset_has_no_duplicates();
        sorted.lemma_multiset_has_no_duplicates_conv();
    }
}

/// A tag that survives being listed with commas: not empty, no comma in it,
/// and no white space at either end.
pub open spec fn plain_tag(t: Seq<char>) -> bool {
    &&& t.len() > 0
    &&& !t.contains(',')
    &&& !is_whitespace_spec(t[0])
    &&& !is_whitespace_spec(t.last())
}

proof fn lemma_trim_plain(t: Seq<char>)
    requires
        plain_tag(t),
    ensures
        trim_spec(t) == t,
        trim_spec(seq![' '] + t) == t,
{
    assert((seq![' '] + t).drop_first() =~= t);
    assert(is_whitespace_spec(' '));
}

/// Scanning text without a comma only extends the piece being read.
proof fn lemma_tag_scan_no_comma(s: Seq<char>, t: Seq<char>)
    requires
        !t.contains(','),
    ensures
        tag_scan(s + t) == (tag_scan(s).0, tag_scan(s).1 + t),
    decreases t.len(),
{
    if t.len() == 0 {
        assert(s + t =~= s);
        assert(tag_scan(s).1 + t =~= tag_scan(s).1);
    } else {
        let init = t.drop_last();
        assert(!init.contains(',')) by {
            if init.contains(',') {
                let k = choose|k: int| 0 <= k < init.len() && init[k] == ',';
                assert(t[k] == ',');
            }
        }
        assert(t[t.len() - 1] != ',');
        lemma_tag_scan_no_comma(s, init);
        assert((s + t).drop_last() =~= s + init);
        assert((tag_scan(s).1 + init).push(t.last()) =~= tag_scan(s).1 + t);
    }
}

/// Listing plain tags with ", " and splitting the list again gives the tags back.
pub proof fn lemma_tags_round_trip(tags: Seq<Seq<char>>)
    requires
        forall|k: int| 0 <= k < tags.len() ==> plain_tag(#[trigger] tags[k]),
    ensures
        tags_spec(join_spec(tags, ", "@)) == tags,
    decreases tags.len(),
{
    lemma_tag_scan_join(tags);
    if tags.len() > 0 {
        lemma_trim_plain(tags.last());
        assert(tags.drop_last().push(tags.last()) =~= tags);
    }
}

/// What scanning a list of plain tags leaves: every tag but the last done,
/// and the last one, after its leading space, being read.
proof fn lemma_tag_scan_join(tags: Seq<Seq<char>>)
    requires
        forall|k: int| 0 <= k < tags.len() ==> plain_tag(#[trigger] tags[k]),
    ensures
        tags.len() == 0 ==> tag_scan(join_spec(tags, ", "@)) == (Seq::<Seq<char>>::empty(), Seq::<char>::empty()),
        tags.len() == 1 ==> tag_scan(join_spec(tags, ", "@)) == (Seq::<Seq<char>>::empty(), tags[0]),
        tags.len() >= 2 ==> tag_scan(join_spec(tags, ", "@)) == (tags.drop_last(), seq![' '] + tags.last()),
    decreases tags.len(),
{
    reveal_strlit(", ");
    if tags.len() == 0 {
    } else if tags.len() == 1 {
        lemma_tag_scan_no_comma(Seq::empty(), tags[0]);
        assert(Seq::<char>::empty() + tags[0] =~= tags[0]);
    } else {
        let init = tags.drop_last();
        let last = tags.last();
        assert(forall|k: int| 0 <= k < init.len() ==> #[trigger] init[k] == tags[k]);
        lemma_tag_scan_join(init);
        let head = join_spec(init, ", "@);
        let (done, cur) = tag_scan(head);
        assert(trim_spec(cur) == init.last()) by {
            lemma_trim_plain(init.last());
            if init.len() == 1 {
                assert(cur == init[0]);
            }
        }
        assert(head + ", "@ + last =~= head.push(',') + (seq![' '] + last));
        assert(!(seq![' '] + last).contains(',')) by {
            if (seq![' '] + last).contains(',') {
                let k = choose|k: int| 0 <= k < (seq![' '] + last).len() && (seq![' '] + last)[k] == ',';
                assert(k > 0);
                assert(last[k - 1] == ',');
            }
        }
        assert(head.push(',').drop_last() =~= head);
        lemma_tag_scan_no_comma(head.push(','), seq![' '] + last);
        assert(Seq::<char>::empty() + (seq![' '] + last) =~= seq![' '] + last);
        if init.len() == 1 {
            assert(done =~= Seq::<Seq<char>>::empty());
            assert(init =~= seq![init[0]]);
            assert(done.push(init.last()) =~= init);
        } else {
            assert(init.drop_last().push(init.last()) =~= init);
        }
    }
}

/// The lower-case form of a text, as `str::to_lowercase` gives it.
pub uninterp spec fn lowercase(s: Seq<char>) -> Seq<char>;

/// Lower-cases a text with `str::to_lowercase`; the result is the named
/// lower-case form of the argument.
#[verifier::external_body]
fn to_lowercase(s: &str) -> (lower: String)
    ensures
        lower@ == lowercase(s@),
{
    s.to_lowercase()
}

/// The characters of the lower-case form of a text.
pub fn lowercase_chars(s: &str) -> (lower: Vec<char>)
    ensures
        lower@ == lowercase(s@),
{
    let l = to_lowercase(s);
    chars_of(l.as_str())
}

/// Whether `needle` occurs in `hay` as a run of consecutive characters.
pub open spec fn contains_text(hay: Seq<char>, needle: Seq<char>) -> bool {
    exists|i: int| 0 <= i && i + needle.len() <= hay.len() && #[trigger] hay.subrange(i, i + needle.len()) == needle
}

/// Whether `needle` occurs in `hay`.
pub fn contains_chars(hay: &Vec<char>, needle: &Vec<char>) -> (found: bool)
    ensures
        found == contains_text(hay@, needle@),
{
    if needle.len() == 0 {
        assert(hay@.subrange(0int, 0int + needle@.len()) =~= needle@);
        return true;
    }
    if needle.len() > hay.len() {
        return false;
    }
    let n = hay.len();
    let last = n - needle.len();
    let mut i: usize = 0;
    while i <= last
        invariant
            n == hay@.len(),
            needle@.len() >= 1,
            last == hay@.len() - needle@.len(),
            i <= last + 1,
            forall|k: int| 0 <= k < i ==> #[trigger] hay@.subrange(k, k + needle@.len()) != needle@,
        decreases last + 1 - i,
    {
        let mut j: usize = 0;
        let mut same = true;
        while j < needle.len()
            invariant
                i <= last,
                n == hay@.len(),
                needle@.len() <= hay@.len(),
                last == hay@.len() - needle@.len(),
                j <= needle@.len(),
                same <==> forall|m: int| 0 <= m < j ==> hay@[i + m] == needle@[m],
            decreases needle@.len() - j,
        {
            if hay[i + j] != needle[j] {
                same = false;
            }
            j = j + 1;
        }
        if same {
            assert(hay@.subrange(i as int, i + needle@.len()) =~= needle@);
            return true;
        }
        proof {
            let m = choose|m: int| 0 <= m < needle@.len() && hay@[i + m] != needle@[m];
            assert(hay@.subrange(i as int, i + needle@.len())[m] != needle@[m]);
        }
        i = i + 1;
    }
    false
}


} // verus!


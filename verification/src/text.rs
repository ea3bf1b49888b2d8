//! Small string helpers shared by the parsers and formatters.

use vstd::prelude::*;

verus! {

/// `String::push` from std: appends one character.
#[verifier::external_body]
pub(crate) fn push_char(s: &mut String, c: char)
    ensures
        final(s)@ == old(s)@.push(c),
{
    s.push(c);
}

/// The characters of an ASCII byte string.
pub open spec fn ascii_chars(s: Seq<u8>) -> Seq<char> {
    s.map_values(|b: u8| b as char)
}

/// A `String` holding the bytes of `bytes`, one character per byte.
pub fn string_from_ascii(bytes: &[u8]) -> (r: String)
    ensures
        r@ == ascii_chars(bytes@),
{
    let mut r = String::new();
    let mut i: usize = 0;
    while i < bytes.len()
        invariant
            i <= bytes@.len(),
            r@ =~= ascii_chars(bytes@.subrange(0, i as int)),
        decreases bytes@.len() - i,
    {
        push_char(&mut r, bytes[i] as char);
        i += 1;
        assert(ascii_chars(bytes@.subrange(0, i as int)) =~= ascii_chars(bytes@.subrange(0, i - 1)).push(
            bytes@[i - 1] as char,
        ));
    }
    assert(bytes@.subrange(0, i as int) =~= bytes@);
    r
}

/// The characters of a string slice, as a vector.
pub fn chars_of(s: &str) -> (r: Vec<char>)
    ensures
        r@ == s@,
{
    let n = s.unicode_len();
    let mut r: Vec<char> = Vec::new();
    let mut i: usize = 0;
    while i < n
        invariant
            n == s@.len(),
            i <= n,
            r@ =~= s@.subrange(0, i as int),
        decreases n - i,
    {
        r.push(s.get_char(i));
        i += 1;
    }
    assert(s@.subrange(0, n as int) =~= s@);
    r
}

/// Whether `prefix` is a prefix of `s`.
pub open spec fn is_prefix(prefix: Seq<char>, s: Seq<char>) -> bool {
    prefix.len() <= s.len() && s.subrange(0, prefix.len() as int) == prefix
}

/// `s.starts_with(prefix)`, compared character by character.
pub fn starts_with(s: &str, prefix: &str) -> (r: bool)
    ensures
        r == is_prefix(prefix@, s@),
{
    let n = s.unicode_len();
    let m = prefix.unicode_len();
    if m > n {
        return false;
    }
    let mut i: usize = 0;
    while i < m
        invariant
            n == s@.len(),
            m == prefix@.len(),
            m <= n,
            i <= m,
            forall|k: int| 0 <= k < i ==> s@[k] == prefix@[k],
        decreases m - i,
    {
        if s.get_char(i) != prefix.get_char(i) {
            assert(s@.subrange(0, m as int)[i as int] != prefix@[i as int]);
            return false;
        }
        i += 1;
    }
    assert(s@.subrange(0, m as int) =~= prefix@);
    true
}

/// The decimal digit character for `d`.
pub open spec fn digit_char(d: nat) -> char {
    if d == 0 { '0' } else if d == 1 { '1' } else if d == 2 { '2' } else if d == 3 { '3' } else if d == 4 {
        '4'
    } else if d == 5 { '5' } else if d == 6 { '6' } else if d == 7 { '7' } else if d == 8 { '8' } else { '9' }
}

/// The decimal spelling of `n`, no leading zeros.
pub open spec fn decimal(n: nat) -> Seq<char>
    decreases n,
{
    if n < 10 {
        seq![digit_char(n)]
    } else {
        decimal(n / 10).push(digit_char(n % 10))
    }
}

/// The decimal spelling of a signed number: a minus sign, then the magnitude.
pub open spec fn signed_decimal(x: int) -> Seq<char> {
    if x < 0 {
        seq!['-'] + decimal((-x) as nat)
    } else {
        decimal(x as nat)
    }
}

fn digit_to_char(d: u64) -> (c: char)
    requires
        d < 10,
    ensures
        c == digit_char(d as nat),
{
    if d == 0 { '0' } else if d == 1 { '1' } else if d == 2 { '2' } else if d == 3 { '3' } else if d == 4 {
        '4'
    } else if d == 5 { '5' } else if d == 6 { '6' } else if d == 7 { '7' } else if d == 8 { '8' } else { '9' }
}

proof fn lemma_digit_char(d: nat)
    requires
        d < 10,
    ensures
        is_digit(digit_char(d)),
        (digit_char(d) as int) - ('0' as int) == d,
{
}

/// A decimal spelling is a non-empty run of digits that reads back as the number.
pub proof fn lemma_decimal_reads_back(n: nat)
    ensures
        decimal(n).len() > 0,
        all_digits(decimal(n)),
        digits_value(decimal(n)) == n,
    decreases n,
{
    lemma_digit_char(n % 10);
    if n >= 10 {
        lemma_decimal_reads_back(n / 10);
        let s = decimal(n);
        assert(s.drop_last() =~= decimal(n / 10));
        assert forall|k: int| 0 <= k < s.len() implies is_digit(#[trigger] s[k]) by {
            if k < s.len() - 1 {
                assert(s[k] == decimal(n / 10)[k]);
            }
        }
        assert(s.last() == digit_char(n % 10));
        assert(digits_value(s) == digits_value(decimal(n / 10)) * 10 + (n % 10));
        assert((n / 10) * 10 + n % 10 == n);
    } else {
        assert(decimal(n) =~= seq![digit_char(n)]);
        assert(decimal(n).drop_last() =~= Seq::<char>::empty());
        assert(digits_value(Seq::<char>::empty()) == 0);
    }
}

/// Appends the decimal spelling of `n`.
pub fn push_decimal(s: &mut String, n: u64)
    ensures
        final(s)@ == old(s)@ + decimal(n as nat),
    decreases n,
{
    if n >= 10 {
        push_decimal(s, n / 10);
    }
    push_char(s, digit_to_char(n % 10));
    proof {
        if n >= 10 {
            assert(old(s)@ + decimal(n as nat) =~= old(s)@ + decimal((n / 10) as nat) + seq![digit_char((n % 10) as nat)]);
        } else {
            assert(old(s)@ + decimal(n as nat) =~= old(s)@.push(digit_char(n as nat)));
        }
    }
}

/// Appends the decimal spelling of a signed number.
pub fn push_signed_decimal(s: &mut String, x: i64)
    ensures
        final(s)@ == old(s)@ + signed_decimal(x as int),
{
    if x < 0 {
        push_char(s, '-');
        let magnitude: u64 = if x == i64::MIN { 0x8000_0000_0000_0000u64 } else { (-x) as u64 };
        push_decimal(s, magnitude);
        assert(old(s)@ + signed_decimal(x as int) =~= old(s)@.push('-') + decimal(magnitude as nat));
    } else {
        push_decimal(s, x as u64);
    }
}

/// Whether `needle` occurs in `hay`.
pub open spec fn contains(hay: Seq<char>, needle: Seq<char>) -> bool {
    exists|i: int| 0 <= i && i + needle.len() <= hay.len() && #[trigger] hay.subrange(i, i + needle.len()) == needle
}

/// `a == b` on string slices, compared character by character.
pub fn str_eq(a: &str, b: &str) -> (r: bool)
    ensures
        r == (a@ == b@),
{
    let n = a.unicode_len();
    if n != b.unicode_len() {
        return false;
    }
    let mut i: usize = 0;
    while i < n
        invariant
            n == a@.len(),
            n == b@.len(),
            i <= n,
            forall|k: int| 0 <= k < i ==> a@[k] == b@[k],
        decreases n - i,
    {
        if a.get_char(i) != b.get_char(i) {
            return false;
        }
        i += 1;
    }
    assert(a@ =~= b@);
    true
}

/// Whether `needle` occurs in `hay`, by a plain left-to-right search.
pub fn contains_str(hay: &Vec<char>, needle: &str) -> (r: bool)
    ensures
        r == contains(hay@, needle@),
{
    let nd = chars_of(needle);
    let m = nd.len();
    if m > hay.len() {
        proof {
            assert forall|i: int| 0 <= i && i + needle@.len() <= hay@.len() implies #[trigger] hay@.subrange(i, i
                + needle@.len()) != needle@ by {}
        }
        return false;
    }
    let mut i: usize = 0;
    while i <= hay.len() - m
        invariant
            nd@ == needle@,
            m == nd@.len(),
            m <= hay@.len(),
            i <= hay@.len() - m + 1,
            forall|k: int| 0 <= k < i ==> #[trigger] hay@.subrange(k, k + m) != needle@,
        decreases hay@.len() - m + 1 - i,
    {
        let mut j: usize = 0;
        while j < m
            invariant
                nd@ == needle@,
                m == nd@.len(),
                i + m <= hay@.len(),
                j <= m,
                forall|k: int| 0 <= k < j ==> hay@[i + k] == nd@[k],
            ensures
                j <= m,
                forall|k: int| 0 <= k < j ==> hay@[i + k] == nd@[k],
                j < m ==> hay@[i + j] != nd@[j as int],
            decreases m - j,
        {
            let hn = hay.len();
            assert(i + j < hn);
            if hay[i + j] != nd[j] {
                break;
            }
            j += 1;
        }
        if j == m {
            assert(hay@.subrange(i as int, i + m) =~= needle@);
            return true;
        }
        assert(hay@.subrange(i as int, i + m)[j as int] != needle@[j as int]);
        i += 1;
    }
    proof {
        assert forall|k: int| 0 <= k && k + needle@.len() <= hay@.len() implies #[trigger] hay@.subrange(k, k
            + needle@.len()) != needle@ by {
            assert(k < i);
        }
    }
    false
}

pub open spec fn is_digit(c: char) -> bool {
    '0' <= c <= '9'
}

pub open spec fn all_digits(s: Seq<char>) -> bool {
    forall|k: int| 0 <= k < s.len() ==> is_digit(#[trigger] s[k])
}

/// The number a run of decimal digits spells.
pub open spec fn digits_value(s: Seq<char>) -> nat
    decreases s.len(),
{
    if s.len() == 0 {
        0
    } else {
        digits_value(s.drop_last()) * 10 + ((s.last() as int) - ('0' as int)) as nat
    }
}

/// What `str::parse` gives for a number of at most `limit` with no sign allowed but `+`:
/// a non-empty run of digits after an optional `+`, within the limit.
pub open spec fn spec_parse_unsigned(s: Seq<char>, limit: nat) -> Option<nat> {
    let d = if s.len() > 0 && s[0] == '+' { s.drop_first() } else { s };
    if d.len() > 0 && all_digits(d) && digits_value(d) <= limit {
        Some(digits_value(d))
    } else {
        None
    }
}

/// What `str::parse::<u16>` gives.
pub open spec fn spec_parse_u16(s: Seq<char>) -> Option<u16> {
    match spec_parse_unsigned(s, 65535) {
        Some(v) => Some(v as u16),
        None => None,
    }
}

/// What `str::parse::<i32>` gives: an optional `+` or `-`, then a non-empty run of digits whose
/// value fits.
pub open spec fn spec_parse_i32(s: Seq<char>) -> Option<i32> {
    if s.len() > 0 && s[0] == '-' {
        let d = s.drop_first();
        if d.len() > 0 && all_digits(d) && digits_value(d) <= 0x8000_0000 {
            Some((0 - digits_value(d)) as i32)
        } else {
            None
        }
    } else {
        match spec_parse_unsigned(s, 0x7fff_ffff) {
            Some(v) => Some(v as i32),
            None => None,
        }
    }
}

proof fn lemma_digits_value_prefix(s: Seq<char>, k: int)
    requires
        0 <= k <= s.len(),
        all_digits(s),
    ensures
        digits_value(s.subrange(0, k)) <= digits_value(s),
    decreases s.len() - k,
{
    if k < s.len() {
        let t = s.subrange(0, k + 1);
        lemma_digits_value_prefix(s, k + 1);
        assert(t.drop_last() =~= s.subrange(0, k));
        assert(is_digit(t.last()));
        assert(digits_value(t) >= digits_value(s.subrange(0, k)));
    } else {
        assert(s.subrange(0, k) =~= s);
    }
}

/// Reads the digits of `s` from index `from` on, failing past `limit`.
fn digits_upto(s: &Vec<char>, from: usize, limit: u64) -> (r: Option<u64>)
    requires
        from <= s@.len(),
    ensures
        ({
            let d = s@.subrange(from as int, s@.len() as int);
            match r {
                Some(v) => d.len() > 0 && all_digits(d) && digits_value(d) <= limit && v == digits_value(d),
                None => !(d.len() > 0 && all_digits(d) && digits_value(d) <= limit),
            }
        }),
{
    let ghost d = s@.subrange(from as int, s@.len() as int);
    if from == s.len() {
        return None;
    }
    let mut acc: u128 = 0;
    let mut i: usize = from;
    while i < s.len()
        invariant
            d == s@.subrange(from as int, s@.len() as int),
            from <= i <= s@.len(),
            all_digits(s@.subrange(from as int, i as int)),
            acc == digits_value(s@.subrange(from as int, i as int)),
            acc <= limit,
        decreases s@.len() - i,
    {
        let c = s[i];
        let ghost t = s@.subrange(from as int, i + 1);
        proof {
            assert(t.drop_last() =~= s@.subrange(from as int, i as int));
        }
        if !('0' <= c && c <= '9') {
            proof {
                assert(d[i - from] == c);
            }
            return None;
        }
        let dv = (c as u32 - '0' as u32) as u128;
        acc = acc * 10 + dv;
        i += 1;
        if acc > limit as u128 {
            proof {
                assert(d.subrange(0, i - from) =~= s@.subrange(from as int, i as int));
                if all_digits(d) {
                    lemma_digits_value_prefix(d, i - from);
                }
            }
            return None;
        }
    }
    assert(s@.subrange(from as int, i as int) =~= d);
    Some(acc as u64)
}

/// What `str::parse::<u64>` gives.
pub open spec fn spec_parse_u64(s: Seq<char>) -> Option<u64> {
    match spec_parse_unsigned(s, 0xffff_ffff_ffff_ffff) {
        Some(v) => Some(v as u64),
        None => None,
    }
}

/// `str::parse::<u64>`.
pub fn parse_u64(s: &str) -> (r: Option<u64>)
    ensures
        r == spec_parse_u64(s@),
{
    let cs = chars_of(s);
    let from: usize = if cs.len() > 0 && cs[0] == '+' { 1 } else { 0 };
    proof {
        let d = if s@.len() > 0 && s@[0] == '+' { s@.drop_first() } else { s@ };
        assert(d =~= cs@.subrange(from as int, cs@.len() as int));
    }
    digits_upto(&cs, from, 0xffff_ffff_ffff_ffff)
}

/// `str::parse::<u16>`.
pub fn parse_u16(s: &str) -> (r: Option<u16>)
    ensures
        r == spec_parse_u16(s@),
{
    let cs = chars_of(s);
    let from: usize = if cs.len() > 0 && cs[0] == '+' { 1 } else { 0 };
    proof {
        let d = if s@.len() > 0 && s@[0] == '+' { s@.drop_first() } else { s@ };
        assert(d =~= cs@.subrange(from as int, cs@.len() as int));
    }
    match digits_upto(&cs, from, 65535) {
        Some(v) => Some(v as u16),
        None => None,
    }
}

/// `str::parse::<i32>`.
pub fn parse_i32(s: &str) -> (r: Option<i32>)
    ensures
        r == spec_parse_i32(s@),
{
    let cs = chars_of(s);
    if cs.len() > 0 && cs[0] == '-' {
        proof {
            assert(s@.drop_first() =~= cs@.subrange(1, cs@.len() as int));
        }
        match digits_upto(&cs, 1, 0x8000_0000) {
            Some(v) => Some((0i64 - v as i64) as i32),
            None => None,
        }
    } else {
        let from: usize = if cs.len() > 0 && cs[0] == '+' { 1 } else { 0 };
        proof {
            let d = if s@.len() > 0 && s@[0] == '+' { s@.drop_first() } else { s@ };
            assert(d =~= cs@.subrange(from as int, cs@.len() as int));
        }
        match digits_upto(&cs, from, 0x7fff_ffff) {
            Some(v) => Some(v as i32),
            None => None,
        }
    }
}

/// Words joined by single spaces.
pub open spec fn join_words(ws: Seq<Seq<char>>) -> Seq<char>
    decreases ws.len(),
{
    if ws.len() == 0 {
        Seq::empty()
    } else if ws.len() == 1 {
        ws[0]
    } else {
        join_words(ws.drop_last()) + " "@ + ws.last()
    }
}

pub open spec fn string_views(ws: Seq<String>) -> Seq<Seq<char>> {
    ws.map_values(|w: String| w@)
}

/// `words[from..].join(" ")`.
pub fn join_from(words: &[String], from: usize) -> (r: String)
    requires
        from <= words@.len(),
    ensures
        r@ == join_words(string_views(words@).subrange(from as int, words@.len() as int)),
{
    let ghost ws = string_views(words@);
    let mut r = String::new();
    let mut i = from;
    while i < words.len()
        invariant
            ws == string_views(words@),
            from <= i <= words@.len(),
            r@ == join_words(ws.subrange(from as int, i as int)),
        decreases words@.len() - i,
    {
        let ghost prev = ws.subrange(from as int, i as int);
        if i > from {
            r.append(" ");
        }
        r.append(words[i].as_str());
        proof {
            let next = ws.subrange(from as int, i + 1);
            assert(next.drop_last() =~= prev);
            assert(next.last() == words@[i as int]@);
            if i == from {
                assert(next.len() == 1);
            }
        }
        i += 1;
    }
    r
}


/// Unicode's White_Space characters, as `char::is_whitespace` takes them.
pub open spec fn is_whitespace(c: char) -> bool {
    ||| '\u{9}' <= c <= '\u{d}'
    ||| c == ' '
    ||| c == '\u{85}'
    ||| c == '\u{a0}'
    ||| c == '\u{1680}'
    ||| '\u{2000}' <= c <= '\u{200a}'
    ||| c == '\u{2028}'
    ||| c == '\u{2029}'
    ||| c == '\u{202f}'
    ||| c == '\u{205f}'
    ||| c == '\u{3000}'
}

pub fn is_whitespace_char(c: char) -> (r: bool)
    ensures
        r == is_whitespace(c),
{
    ('\u{9}' <= c && c <= '\u{d}') || c == ' ' || c == '\u{85}' || c == '\u{a0}' || c == '\u{1680}' || ('\u{2000}'
        <= c && c <= '\u{200a}') || c == '\u{2028}' || c == '\u{2029}' || c == '\u{202f}' || c == '\u{205f}' || c
        == '\u{3000}'
}

/// How many characters the run of non-whitespace that `s` starts with holds.
pub open spec fn word_len(s: Seq<char>) -> nat
    decreases s.len(),
{
    if s.len() == 0 || is_whitespace(s[0]) {
        0
    } else {
        1 + word_len(s.drop_first())
    }
}

/// A word is no longer than what holds it, and a string that starts with a non-space starts a word.
pub proof fn lemma_word_len_bound(s: Seq<char>)
    ensures
        word_len(s) <= s.len(),
        s.len() > 0 && !is_whitespace(s[0]) ==> word_len(s) >= 1,
    decreases s.len(),
{
    if s.len() > 0 && !is_whitespace(s[0]) {
        lemma_word_len_bound(s.drop_first());
    }
}

/// What `str::split_whitespace` gives: the maximal runs of non-whitespace, in order.
pub open spec fn words(s: Seq<char>) -> Seq<Seq<char>>
    decreases s.len(),
{
    if s.len() == 0 {
        Seq::empty()
    } else if is_whitespace(s[0]) {
        words(s.drop_first())
    } else {
        proof {
            lemma_word_len_bound(s);
        }
        seq![s.subrange(0, word_len(s) as int)] + words(s.subrange(word_len(s) as int, s.len() as int))
    }
}

/// A run of `k` non-whitespace characters ended by whitespace or the end is a word of length `k`.
proof fn lemma_word_len_is(s: Seq<char>, k: int)
    requires
        0 <= k <= s.len(),
        forall|j: int| 0 <= j < k ==> !is_whitespace(#[trigger] s[j]),
        k == s.len() || is_whitespace(s[k]),
    ensures
        word_len(s) == k,
    decreases k,
{
    if k > 0 {
        let t = s.drop_first();
        assert forall|j: int| 0 <= j < k - 1 implies !is_whitespace(#[trigger] t[j]) by {
            assert(t[j] == s[j + 1]);
        }
        if k < s.len() {
            assert(t[k - 1] == s[k]);
        }
        lemma_word_len_is(t, k - 1);
    }
}

/// `s.split_whitespace()`, each word as a `String`.
pub fn split_whitespace(s: &str) -> (r: Vec<String>)
    ensures
        string_views(r@) == words(s@),
{
    let cs = chars_of(s);
    let n = cs.len();
    let mut out: Vec<String> = Vec::new();
    let mut i: usize = 0;
    assert(cs@.subrange(0, n as int) =~= s@);
    while i < n
        invariant
            cs@ == s@,
            n == cs@.len(),
            i <= n,
            words(s@) == string_views(out@) + words(cs@.subrange(i as int, n as int)),
        decreases n - i,
    {
        let ghost rest = cs@.subrange(i as int, n as int);
        if is_whitespace_char(cs[i]) {
            assert(rest.drop_first() =~= cs@.subrange(i + 1, n as int));
            i += 1;
        } else {
            let start = i;
            let mut w = String::new();
            while i < n && !is_whitespace_char(cs[i])
                invariant
                    cs@ == s@,
                    n == cs@.len(),
                    start <= i <= n,
                    w@ == cs@.subrange(start as int, i as int),
                    forall|j: int| start <= j < i ==> !is_whitespace(#[trigger] cs@[j]),
                decreases n - i,
            {
                push_char(&mut w, cs[i]);
                i += 1;
                assert(w@ =~= cs@.subrange(start as int, i as int));
            }
            proof {
                let k = i - start;
                assert forall|j: int| 0 <= j < k implies !is_whitespace(#[trigger] rest[j]) by {
                    assert(rest[j] == cs@[start + j]);
                }
                if i < n {
                    assert(rest[k] == cs@[i as int]);
                }
                lemma_word_len_is(rest, k);
                assert(rest.subrange(0, k) =~= w@);
                assert(rest.subrange(k, rest.len() as int) =~= cs@.subrange(i as int, n as int));
                assert(string_views(out@.push(w)) =~= string_views(out@).push(w@));
            }
            out.push(w);
            proof {
                assert(words(rest) == seq![w@] + words(cs@.subrange(i as int, n as int)));
                assert(string_views(out@) + words(cs@.subrange(i as int, n as int)) =~= string_views(
                    out@.drop_last(),
                ) + words(rest));
            }
        }
    }
    assert(cs@.subrange(n as int, n as int) =~= Seq::<char>::empty());
    assert(string_views(out@) + Seq::<Seq<char>>::empty() =~= string_views(out@));
    out
}

} // verus!

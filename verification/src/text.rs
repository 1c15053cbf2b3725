//! Character and decimal helpers shared by the notation and FEN code.
use vstd::prelude::*;
use vstd::std_specs::iter::IteratorSpec;

verus! {

/// The ASCII digit for a value below ten.
pub open spec fn digit_char(d: int) -> char
    recommends
        0 <= d < 10,
{
    ((d + 48) as u32) as char
}

/// Decimal representation of a natural number, most significant digit first.
pub open spec fn decimal(n: nat) -> Seq<char>
    decreases n,
{
    if n < 10 {
        seq![digit_char(n as int)]
    } else {
        decimal(n / 10).push(digit_char((n % 10) as int))
    }
}

/// Decimal representation of an integer, with a leading `-` when negative.
pub open spec fn signed_decimal(n: int) -> Seq<char> {
    if n < 0 {
        seq!['-'].add(decimal((-n) as nat))
    } else {
        decimal(n as nat)
    }
}

/// Whether `c` is one of the characters `'0'` to `'9'`.
pub open spec fn is_digit(c: char) -> bool {
    '0' <= c <= '9'
}

/// The value of a decimal digit character.
pub open spec fn digit_value(c: char) -> int {
    c as int - 48
}

/// `String::push`: appends one character.
#[verifier::external_body]
pub(crate) fn string_push(s: &mut String, c: char)
    ensures
        final(s)@ == old(s)@.push(c),
{
    s.push(c);
}

/// The characters of a string slice, in order.
pub fn chars_of(s: &str) -> (r: Vec<char>)
    ensures
        r@ == s@,
{
    broadcast use vstd::string::group_string_axioms;
    let mut r: Vec<char> = Vec::new();
    let mut it = s.chars();
    assert(it.remaining() == s@);
    loop
        invariant
            it.obeys_prophetic_iter_laws(),
            r@ + it.remaining() == s@,
            it.decrease() is Some,
        ensures
            r@ == s@,
        decreases it.decrease()->0,
    {
        let ghost before = it.remaining();
        match it.next() {
            Some(c) => {
                r.push(c);
                assert(r@ + it.remaining() =~= s@) by {
                    assert(before == seq![c] + it.remaining());
                }
            },
            None => {
                assert(before.len() == 0);
                assert(r@ =~= s@);
                break;
            },
        }
    }
    r
}

/// The digit character for `d`.
pub fn digit_to_char(d: u64) -> (c: char)
    requires
        d < 10,
    ensures
        c == digit_char(d as int),
{
    match d {
        0 => '0',
        1 => '1',
        2 => '2',
        3 => '3',
        4 => '4',
        5 => '5',
        6 => '6',
        7 => '7',
        8 => '8',
        _ => '9',
    }
}

/// Appends the decimal representation of `n`.
pub fn push_decimal(s: &mut String, n: u64)
    ensures
        final(s)@ == old(s)@ + decimal(n as nat),
    decreases n,
{
    if n >= 10 {
        push_decimal(s, n / 10);
    }
    string_push(s, digit_to_char(n % 10));
    proof {
        assert(old(s)@ + decimal(n as nat) =~= final(s)@) by {
            if n >= 10 {
                assert(decimal(n as nat) == decimal((n / 10) as nat).push(digit_char((n % 10) as int)));
            }
        }
    }
}

/// Whether `c` is white space, as `char::is_whitespace` decides it.
pub open spec fn is_white_space(c: char) -> bool {
    ||| c == ' '
    ||| c == '\t'
    ||| c == '\n'
    ||| c == '\u{0B}'
    ||| c == '\u{0C}'
    ||| c == '\r'
    ||| c == '\u{85}'
    ||| c == '\u{A0}'
    ||| c == '\u{1680}'
    ||| ('\u{2000}' <= c <= '\u{200A}')
    ||| c == '\u{2028}'
    ||| c == '\u{2029}'
    ||| c == '\u{202F}'
    ||| c == '\u{205F}'
    ||| c == '\u{3000}'
}

/// Whether `c` is white space.
pub fn white_space(c: char) -> (r: bool)
    ensures
        r == is_white_space(c),
{
    c == ' ' || c == '\t' || c == '\n' || c == '\u{0B}' || c == '\u{0C}' || c == '\r' || c == '\u{85}'
        || c == '\u{A0}' || c == '\u{1680}' || ('\u{2000}' <= c && c <= '\u{200A}') || c == '\u{2028}'
        || c == '\u{2029}' || c == '\u{202F}' || c == '\u{205F}' || c == '\u{3000}'
}

/// The white-space separated words of `s`, given the word `cur` already begun.
pub open spec fn words_from(s: Seq<char>, cur: Seq<char>) -> Seq<Seq<char>>
    decreases s.len(),
{
    if s.len() == 0 {
        if cur.len() > 0 {
            seq![cur]
        } else {
            Seq::empty()
        }
    } else if is_white_space(s[0]) {
        (if cur.len() > 0 {
            seq![cur]
        } else {
            Seq::<Seq<char>>::empty()
        }) + words_from(s.drop_first(), Seq::empty())
    } else {
        words_from(s.drop_first(), cur.push(s[0]))
    }
}

/// The white-space separated words of `s`, as `str::split_whitespace` gives them.
pub open spec fn words(s: Seq<char>) -> Seq<Seq<char>> {
    words_from(s, Seq::empty())
}

/// Splits characters into white-space separated words.
pub fn split_words(s: &Vec<char>) -> (r: Vec<Vec<char>>)
    ensures
        r@.len() == words(s@).len(),
        forall|i: int| 0 <= i < r@.len() ==> #[trigger] r@[i]@ == words(s@)[i],
{
    let mut acc: Vec<Vec<char>> = Vec::new();
    let mut cur: Vec<char> = Vec::new();
    let mut i: usize = 0;
    let ghost mut acc_v: Seq<Seq<char>> = Seq::empty();
    proof {
        assert(s@.skip(0) =~= s@);
        assert(acc_v + words_from(s@, cur@) =~= words(s@));
    }
    while i < s.len()
        invariant
            i <= s.len(),
            acc@.len() == acc_v.len(),
            forall|j: int| 0 <= j < acc@.len() ==> #[trigger] acc@[j]@ == acc_v[j],
            acc_v + words_from(s@.skip(i as int), cur@) == words(s@),
        decreases s.len() - i,
    {
        let c = s[i];
        proof {
            assert(s@.skip(i as int).drop_first() =~= s@.skip(i + 1));
            assert(s@.skip(i as int)[0] == c);
        }
        if white_space(c) {
            if cur.len() > 0 {
                proof {
                    acc_v = acc_v.push(cur@);
                }
                acc.push(cur);
                cur = Vec::new();
                proof {
                    assert(acc_v + words_from(s@.skip(i + 1), cur@) =~= words(s@)) by {
                        let old_v = acc_v.drop_last();
                        assert(old_v + (seq![acc_v.last()] + words_from(s@.skip(i + 1), Seq::empty())) == words(s@));
                        assert(old_v + (seq![acc_v.last()] + words_from(s@.skip(i + 1), Seq::empty())) =~= acc_v + words_from(s@.skip(i + 1), cur@));
                    }
                }
            } else {
                proof {
                    assert(acc_v + words_from(s@.skip(i + 1), cur@) =~= words(s@)) by {
                        assert(Seq::<Seq<char>>::empty() + words_from(s@.skip(i + 1), Seq::empty()) =~= words_from(s@.skip(i + 1), Seq::empty()));
                        assert(cur@ =~= Seq::<char>::empty());
                    }
                }
            }
        } else {
            cur.push(c);
        }
        i = i + 1;
    }
    proof {
        assert(s@.skip(i as int) =~= Seq::<char>::empty());
    }
    if cur.len() > 0 {
        proof {
            acc_v = acc_v.push(cur@);
        }
        acc.push(cur);
    }
    proof {
        assert(acc_v =~= words(s@));
    }
    acc
}

/// Whether `s` is all decimal digits.
pub open spec fn all_digits(s: Seq<char>) -> bool {
    forall|i: int| 0 <= i < s.len() ==> is_digit(#[trigger] s[i])
}

/// The value of a string of decimal digits.
pub open spec fn digits_value(s: Seq<char>) -> nat
    decreases s.len(),
{
    if s.len() == 0 {
        0
    } else {
        digits_value(s.drop_last()) * 10 + (digit_value(s.last()) as nat)
    }
}

/// What parsing an unsigned number no larger than `max` gives, as `str::parse` does for
/// unsigned integers: an optional `+`, then one or more decimal digits, and a value that fits.
pub open spec fn parse_unsigned(s: Seq<char>, max: nat) -> Option<nat> {
    let body = if s.len() > 0 && s[0] == '+' {
        s.drop_first()
    } else {
        s
    };
    if body.len() > 0 && all_digits(body) && digits_value(body) <= max {
        Some(digits_value(body))
    } else {
        None
    }
}

/// Parses an unsigned decimal number no larger than `max`.
pub fn parse_unsigned_exec(s: &Vec<char>, max: u64) -> (r: Option<u64>)
    ensures
        r matches Some(v) ==> parse_unsigned(s@, max as nat) == Some(v as nat),
        r is None ==> parse_unsigned(s@, max as nat) is None,
{
    let start: usize = if s.len() > 0 && s[0] == '+' {
        1
    } else {
        0
    };
    let ghost body = if s@.len() > 0 && s@[0] == '+' {
        s@.drop_first()
    } else {
        s@
    };
    proof {
        assert(body =~= s@.skip(start as int));
    }
    if start >= s.len() {
        return None;
    }
    let mut value: u64 = 0;
    let mut i: usize = start;
    while i < s.len()
        invariant
            start <= i <= s.len(),
            body =~= s@.skip(start as int),
            body == (if s@.len() > 0 && s@[0] == '+' { s@.drop_first() } else { s@ }),
            value == digits_value(s@.subrange(start as int, i as int)),
            value <= max,
            all_digits(s@.subrange(start as int, i as int)),
        decreases s.len() - i,
    {
        let c = s[i];
        proof {
            assert(s@.subrange(start as int, i + 1).drop_last() =~= s@.subrange(start as int, i as int));
            assert(s@.subrange(start as int, i + 1).last() == c);
        }
        if !('0' <= c && c <= '9') {
            proof {
                assert(!all_digits(body)) by {
                    assert(body[i - start] == c);
                    assert(!is_digit(body[i - start]));
                }
                assert(body == (if s@.len() > 0 && s@[0] == '+' { s@.drop_first() } else { s@ }));
                assert(parse_unsigned(s@, max as nat) is None);
            }
            return None;
        }
        let d: u64 = (c as u32 - 48) as u64;
        let next: u128 = value as u128 * 10 + d as u128;
        if next > max as u128 {
            proof {
                let sub = s@.subrange(start as int, i + 1);
                assert(digits_value(sub) == value * 10 + d);
                assert(body.take(i + 1 - start) =~= sub);
                assert(all_digits(sub)) by {
                    assert forall|j: int| 0 <= j < sub.len() implies is_digit(#[trigger] sub[j]) by {
                        if j < sub.len() - 1 {
                            assert(sub[j] == s@.subrange(start as int, i as int)[j]);
                        }
                    }
                }
                lemma_digits_value_prefix(body, (i + 1 - start) as nat);
            }
            return None;
        }
        value = next as u64;
        i = i + 1;
    }
    proof {
        assert(s@.subrange(start as int, s@.len() as int) =~= body);
    }
    Some(value)
}

/// The value of a digit string is at least the value of any of its prefixes.
pub proof fn lemma_digits_value_prefix(s: Seq<char>, n: nat)
    requires
        n <= s.len(),
        all_digits(s.take(n as int)),
    ensures
        all_digits(s) ==> digits_value(s) >= digits_value(s.take(n as int)),
    decreases s.len(),
{
    if n < s.len() && all_digits(s) {
        lemma_digits_value_prefix(s.drop_last(), n);
        assert(s.drop_last().take(n as int) =~= s.take(n as int));
    } else if n == s.len() {
        assert(s.take(n as int) =~= s);
    }
}

/// Appends the characters of `t`.
pub fn push_chars(s: &mut String, t: &String)
    ensures
        final(s)@ == old(s)@ + t@,
{
    let cs = chars_of(t.as_str());
    let mut i: usize = 0;
    while i < cs.len()
        invariant
            i <= cs.len(),
            cs@ == t@,
            s@ == old(s)@ + cs@.take(i as int),
        decreases cs.len() - i,
    {
        string_push(s, cs[i]);
        proof {
            assert(cs@.take(i + 1) =~= cs@.take(i as int).push(cs@[i as int]));
        }
        i = i + 1;
    }
    proof {
        assert(cs@.take(i as int) =~= cs@);
    }
}


/// `s` without its leading white space.
pub open spec fn trim_start(s: Seq<char>) -> Seq<char>
    decreases s.len(),
{
    if s.len() > 0 && is_white_space(s[0]) {
        trim_start(s.drop_first())
    } else {
        s
    }
}

/// `s` without its trailing white space.
pub open spec fn trim_end(s: Seq<char>) -> Seq<char>
    decreases s.len(),
{
    if s.len() > 0 && is_white_space(s.last()) {
        trim_end(s.drop_last())
    } else {
        s
    }
}

/// `s` without leading and trailing white space, as `str::trim` gives it.
pub open spec fn trim(s: Seq<char>) -> Seq<char> {
    trim_end(trim_start(s))
}

/// The characters without leading and trailing white space.
pub fn trim_chars(s: &Vec<char>) -> (r: Vec<char>)
    ensures
        r@ == trim(s@),
{
    let mut start: usize = 0;
    proof {
        assert(s@.subrange(0, s@.len() as int) =~= s@);
    }
    while start < s.len() && white_space(s[start])
        invariant
            start <= s@.len(),
            trim_start(s@) == trim_start(s@.subrange(start as int, s@.len() as int)),
        decreases s@.len() - start,
    {
        proof {
            assert(s@.subrange(start as int, s@.len() as int).drop_first() =~= s@.subrange(start + 1, s@.len() as int));
        }
        start = start + 1;
    }
    proof {
        assert(s@.subrange(start as int, s@.len() as int) == trim_start(s@));
    }
    let mut end: usize = s.len();
    while end > start && white_space(s[end - 1])
        invariant
            start <= end <= s@.len(),
            trim_start(s@) == s@.subrange(start as int, s@.len() as int),
            trim(s@) == trim_end(s@.subrange(start as int, end as int)),
        decreases end,
    {
        proof {
            assert(s@.subrange(start as int, end as int).drop_last() =~= s@.subrange(start as int, end - 1));
        }
        end = end - 1;
    }
    let mut r: Vec<char> = Vec::new();
    let mut i: usize = start;
    while i < end
        invariant
            start <= i <= end,
            end <= s@.len(),
            r@ == s@.subrange(start as int, i as int),
        decreases end - i,
    {
        r.push(s[i]);
        proof {
            assert(r@ =~= s@.subrange(start as int, i + 1));
        }
        i = i + 1;
    }
    proof {
        assert(trim_end(s@.subrange(start as int, end as int)) == s@.subrange(start as int, end as int));
    }
    r
}

/// The first position from `i` on where `pattern` occurs in `s`.
pub open spec fn find_from(s: Seq<char>, pattern: Seq<char>, i: int) -> Option<int>
    decreases s.len() + 1 - i,
{
    if i < 0 || i + pattern.len() > s.len() {
        None
    } else if s.subrange(i, i + pattern.len()) == pattern {
        Some(i)
    } else {
        find_from(s, pattern, i + 1)
    }
}

/// The first position where `pattern` occurs in `s`, as `str::find` gives it.
pub open spec fn find(s: Seq<char>, pattern: Seq<char>) -> Option<int> {
    find_from(s, pattern, 0)
}

/// Where `pattern` first occurs in `s`.
pub fn find_chars(s: &Vec<char>, pattern: &Vec<char>) -> (r: Option<usize>)
    ensures
        r matches Some(i) ==> find(s@, pattern@) == Some(i as int),
        r is None ==> find(s@, pattern@) is None,
{
    let n = s.len();
    let mut i: usize = 0;
    while i <= n && pattern.len() <= n - i
        invariant
            n == s@.len(),
            i <= s@.len() + 1,
            find(s@, pattern@) == find_from(s@, pattern@, i as int),
        decreases s@.len() + 1 - i,
    {
        let mut k: usize = 0;
        let mut same = true;
        while k < pattern.len() && same
            invariant
                k <= pattern@.len(),
                n == s@.len(),
                i + pattern@.len() <= n,
                same == (forall|j: int| 0 <= j < k ==> s@[i + j] == pattern@[j]),
            decreases pattern@.len() - k,
        {
            assert(i + k < s@.len());
            if s[i + k] != pattern[k] {
                same = false;
            }
            k = k + 1;
        }
        if same {
            proof {
                assert(s@.subrange(i as int, i + pattern@.len()) =~= pattern@);
            }
            return Some(i);
        }
        proof {
            let j = choose|j: int| 0 <= j < k && s@[i + j] != pattern@[j];
            assert(s@.subrange(i as int, i + pattern@.len())[j] != pattern@[j]);
        }
        i = i + 1;
    }
    None
}

/// A character in ASCII lower case.
pub open spec fn ascii_lower(c: char) -> char {
    if 'A' <= c <= 'Z' {
        ((c as u32) + 32) as char
    } else {
        c
    }
}

/// Whether `s` in ASCII lower case is `lower`.
pub fn equals_ascii_lowercase(s: &Vec<char>, lower: &str) -> (r: bool)
    ensures
        r == (s@.map_values(|c: char| ascii_lower(c)) == lower@),
{
    let l = chars_of(lower);
    if s.len() != l.len() {
        proof {
            assert(s@.map_values(|c: char| ascii_lower(c)).len() != lower@.len());
        }
        return false;
    }
    let mut i: usize = 0;
    while i < s.len()
        invariant
            i <= s@.len(),
            s@.len() == l@.len(),
            l@ == lower@,
            forall|j: int| 0 <= j < i ==> ascii_lower(s@[j]) == l@[j],
        decreases s@.len() - i,
    {
        let c = s[i];
        let lowered = if 'A' <= c && c <= 'Z' {
            ((c as u32) + 32) as u8 as char
        } else {
            c
        };
        proof {
            if 'A' <= c <= 'Z' {
                assert(((c as u32) + 32) as u8 as char == ((c as u32) + 32) as char);
            }
        }
        if lowered != l[i] {
            proof {
                assert(s@.map_values(|c: char| ascii_lower(c))[i as int] != l@[i as int]);
            }
            return false;
        }
        i = i + 1;
    }
    proof {
        assert(s@.map_values(|c: char| ascii_lower(c)) =~= l@);
    }
    true
}


/// Appends the characters of the string slice `t`.
pub fn push_str(s: &mut String, t: &str)
    ensures
        final(s)@ == old(s)@ + t@,
{
    let cs = chars_of(t);
    let mut i: usize = 0;
    while i < cs.len()
        invariant
            i <= cs@.len(),
            cs@ == t@,
            s@ == old(s)@ + cs@.subrange(0, i as int),
        decreases cs@.len() - i,
    {
        string_push(s, cs[i]);
        proof {
            assert(s@ =~= old(s)@ + cs@.subrange(0, i + 1));
        }
        i = i + 1;
    }
    proof {
        assert(cs@.subrange(0, i as int) =~= cs@);
    }
}


/// Where `find_from` finds the pattern, it occurs, at or after the start.
pub proof fn lemma_find_from_found(s: Seq<char>, pattern: Seq<char>, j: int, i: int)
    requires
        find_from(s, pattern, j) == Some(i),
    ensures
        j <= i,
        i + pattern.len() <= s.len(),
        s.subrange(i, i + pattern.len()) == pattern,
    decreases s.len() + 1 - j,
{
    if j < 0 || j + pattern.len() > s.len() {
    } else if s.subrange(j, j + pattern.len()) == pattern {
    } else {
        lemma_find_from_found(s, pattern, j + 1, i);
    }
}

} // verus!

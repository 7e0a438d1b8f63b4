//! Text: comparison, decimal numbers, white space and fields.

use vstd::prelude::*;
use vstd::string::*;
use vstd::utf8::*;

verus! {

/// Whether two texts hold the same characters.
pub fn same_text(a: &str, b: &str) -> (r: bool)
    ensures
        r == (a@ == b@),
{
    let x = a.as_bytes();
    let y = b.as_bytes();
    if x.len() != y.len() {
        return false;
    }
    let mut i: usize = 0;
    while i < x.len()
        invariant
            i <= x.len(),
            x.len() == y.len(),
            x@ == a.spec_bytes(),
            y@ == b.spec_bytes(),
            forall|j: int| 0 <= j < i ==> x@[j] == y@[j],
        decreases x.len() - i,
    {
        if x[i] != y[i] {
            return false;
        }
        i = i + 1;
    }
    proof {
        assert(x@ =~= y@);
        encode_utf8_decode_utf8(a@);
        encode_utf8_decode_utf8(b@);
    }
    true
}

/// The characters of a text.
pub fn chars_of(s: &str) -> (r: Vec<char>)
    ensures
        r@ == s@,
{
    let mut out: Vec<char> = Vec::new();
    for c in it: s.chars()
        invariant
            it.seq() == s@,
            out@ == s@.take(it.index()),
    {
        proof {
            assert(s@.take(it.index() + 1) =~= s@.take(it.index()).push(c));
        }
        out.push(c);
    }
    assert(out@ =~= s@);
    out
}

/// The character of a decimal digit.
pub open spec fn digit_char(d: nat) -> char {
    (48 + d) as char
}

/// `n` in decimal, without leading zeros.
pub open spec fn decimal(n: nat) -> Seq<char>
    decreases n,
{
    if n < 10 {
        seq![digit_char(n)]
    } else {
        decimal(n / 10).push(digit_char(n % 10))
    }
}

/// `n` in decimal, with a minus sign where it is negative.
pub open spec fn signed_decimal(n: int) -> Seq<char> {
    if n < 0 {
        seq!['-'] + decimal((-n) as nat)
    } else {
        decimal(n as nat)
    }
}

/// One digit as text.
fn digit_text(d: u64) -> (r: &'static str)
    requires
        d < 10,
    ensures
        r@ == seq![digit_char(d as nat)],
{
    proof {
        reveal_strlit("0");
        reveal_strlit("1");
        reveal_strlit("2");
        reveal_strlit("3");
        reveal_strlit("4");
        reveal_strlit("5");
        reveal_strlit("6");
        reveal_strlit("7");
        reveal_strlit("8");
        reveal_strlit("9");
    }
    let r = match d {
        0 => "0",
        1 => "1",
        2 => "2",
        3 => "3",
        4 => "4",
        5 => "5",
        6 => "6",
        7 => "7",
        8 => "8",
        _ => "9",
    };
    assert(r@ =~= seq![digit_char(d as nat)]);
    r
}

/// `n` as decimal text.
pub fn decimal_text(n: u64) -> (r: String)
    ensures
        r@ == decimal(n as nat),
    decreases n,
{
    if n < 10 {
        digit_text(n).to_string()
    } else {
        let mut r: String = decimal_text(n / 10);
        let ghost front = r@;
        r.append(digit_text(n % 10));
        assert(r@ =~= front.push(digit_char((n % 10) as nat)));
        r
    }
}

/// `n` as decimal text, signed.
pub fn signed_decimal_text(n: i64) -> (r: String)
    ensures
        r@ == signed_decimal(n as int),
{
    if n < 0 {
        proof {
            reveal_strlit("-");
        }
        let mut r: String = "-".to_string();
        let magnitude: i128 = -(n as i128);
        r.append(decimal_text(magnitude as u64).as_str());
        assert(r@ =~= seq!['-'] + decimal((-n) as nat));
        r
    } else {
        decimal_text(n as u64)
    }
}

/// The value of a text of decimal digits.
pub open spec fn digits_value(s: Seq<char>) -> nat
    decreases s.len(),
{
    if s.len() == 0 {
        0
    } else {
        digits_value(s.drop_last()) * 10 + (s.last() as int - 48) as nat
    }
}

/// Whether each character is a decimal digit.
pub open spec fn all_digits(s: Seq<char>) -> bool {
    forall|i: int| 0 <= i < s.len() ==> '0' <= #[trigger] s[i] <= '9'
}

/// The value of a longer text of digits is no smaller.
proof fn lemma_digits_value_grows(s: Seq<char>, n: int)
    requires
        0 <= n <= s.len(),
    ensures
        digits_value(s.take(n)) <= digits_value(s),
    decreases s.len() - n,
{
    if n < s.len() {
        lemma_digits_value_grows(s, n + 1);
        assert(s.take(n + 1).drop_last() =~= s.take(n));
    } else {
        assert(s.take(n) =~= s);
    }
}

/// Reads the first `n` characters as a decimal number. `None` where one of them is no
/// digit or where the number exceeds `u64`.
pub fn parse_digits(chars: &Vec<char>, n: usize) -> (r: Option<u64>)
    requires
        n <= chars@.len(),
    ensures
        match r {
            Some(v) => all_digits(chars@.take(n as int)) && v == digits_value(chars@.take(n as int)),
            None => !all_digits(chars@.take(n as int)) || digits_value(chars@.take(n as int))
                > u64::MAX,
        },
{
    let ghost s = chars@.take(n as int);
    let mut value: u64 = 0;
    let mut i: usize = 0;
    while i < n
        invariant
            i <= n <= chars@.len(),
            s == chars@.take(n as int),
            all_digits(s.take(i as int)),
            value == digits_value(s.take(i as int)),
        decreases n - i,
    {
        let c: char = chars[i];
        proof {
            assert(s.take(i + 1).drop_last() =~= s.take(i as int));
            assert(s.take(i + 1).last() == c);
            assert(s[i as int] == c);
        }
        if !('0' <= c && c <= '9') {
            return None;
        }
        let d: u64 = (c as u32 - 48) as u64;
        proof {
            assert(digits_value(s.take(i + 1)) == value * 10 + d);
            lemma_digits_value_grows(s, i + 1);
        }
        match value.checked_mul(10) {
            None => {
                return None;
            },
            Some(tens) => match tens.checked_add(d) {
                None => {
                    return None;
                },
                Some(next) => {
                    value = next;
                },
            },
        }
        assert forall|j: int| 0 <= j < s.take(i + 1).len() implies '0' <= #[trigger] s.take(
            i + 1,
        )[j] <= '9' by {
            if j < i {
                assert(s.take(i as int)[j] == s.take(i + 1)[j]);
            }
        }
        i = i + 1;
    }
    assert(s.take(n as int) =~= s);
    Some(value)
}

/// The characters with the `White_Space` property of Unicode.
pub open spec fn is_space(c: char) -> bool {
    let u = c as u32;
    ||| 9 <= u <= 13
    ||| u == 32
    ||| u == 0x85
    ||| u == 0xa0
    ||| u == 0x1680
    ||| 0x2000 <= u <= 0x200a
    ||| u == 0x2028
    ||| u == 0x2029
    ||| u == 0x202f
    ||| u == 0x205f
    ||| u == 0x3000
}

/// Whether `c` is white space.
pub fn space(c: char) -> (r: bool)
    ensures
        r == is_space(c),
{
    let u: u32 = c as u32;
    (9 <= u && u <= 13) || u == 32 || u == 0x85 || u == 0xa0 || u == 0x1680 || (0x2000 <= u && u
        <= 0x200a) || u == 0x2028 || u == 0x2029 || u == 0x202f || u == 0x205f || u == 0x3000
}

/// The first place at or after `from` that is white space, or is none where `want` is
/// false; the length of the text where there is no such place.
pub open spec fn space_from(s: Seq<char>, from: int, want: bool) -> int
    decreases s.len() - from,
{
    if from >= s.len() {
        s.len() as int
    } else if is_space(s[from]) == want {
        from
    } else {
        space_from(s, from + 1, want)
    }
}

/// Where the next run of white space, or of anything else, begins.
pub fn find_space(chars: &Vec<char>, from: usize, want: bool) -> (r: usize)
    requires
        from <= chars@.len(),
    ensures
        r == space_from(chars@, from as int, want),
        from <= r <= chars@.len(),
        r < chars@.len() ==> is_space(chars@[r as int]) == want,
{
    let mut i: usize = from;
    while i < chars.len()
        invariant
            from <= i <= chars@.len(),
            space_from(chars@, from as int, want) == space_from(chars@, i as int, want),
        decreases chars@.len() - i,
    {
        if space(chars[i]) == want {
            return i;
        }
        i = i + 1;
    }
    i
}

/// Where `space_from` leads.
pub proof fn lemma_space_from(s: Seq<char>, from: int, want: bool)
    requires
        0 <= from <= s.len(),
    ensures
        from <= space_from(s, from, want) <= s.len(),
        space_from(s, from, want) < s.len() ==> is_space(s[space_from(s, from, want)]) == want,
    decreases s.len() - from,
{
    if from < s.len() && is_space(s[from]) != want {
        lemma_space_from(s, from + 1, want);
    }
}

/// How many fields, parted by white space, stand at or after `from`.
pub open spec fn field_count(s: Seq<char>, from: int) -> nat
    decreases s.len() - from,
    when 0 <= from <= s.len()
{
    proof {
        lemma_space_from(s, from, false);
        lemma_space_from(s, space_from(s, from, false), true);
    }
    let start = space_from(s, from, false);
    if start >= s.len() {
        0
    } else {
        1 + field_count(s, space_from(s, start, true))
    }
}

/// The number of fields of a text.
pub fn count_fields(chars: &Vec<char>) -> (n: usize)
    ensures
        n == field_count(chars@, 0),
{
    let mut at: usize = 0;
    let mut n: usize = 0;
    loop
        invariant
            at <= chars@.len(),
            n <= at,
            n + field_count(chars@, at as int) == field_count(chars@, 0),
        ensures
            n == field_count(chars@, 0),
        decreases chars@.len() - at,
    {
        let start: usize = find_space(chars, at, false);
        if start >= chars.len() {
            break;
        }
        let end: usize = find_space(chars, start, true);
        n = n + 1;
        at = end;
    }
    n
}

/// `a` goes before `b` in the order of their characters.
pub open spec fn text_before(a: Seq<char>, b: Seq<char>) -> bool
    decreases a.len(),
{
    if b.len() == 0 {
        false
    } else if a.len() == 0 {
        true
    } else if a[0] != b[0] {
        a[0] < b[0]
    } else {
        text_before(a.skip(1), b.skip(1))
    }
}

/// Texts in order, each before the next.
pub open spec fn in_text_order(list: Seq<Seq<char>>) -> bool {
    forall|i: int, j: int|
        0 <= i < j < list.len() ==> text_before(#[trigger] list[i], #[trigger] list[j])
}

/// Of two texts that are not the same one goes before the other, and the order carries over.
pub proof fn law_texts_are_ordered(a: Seq<char>, b: Seq<char>, c: Seq<char>)
    ensures
        !text_before(a, a),
        a != b ==> text_before(a, b) || text_before(b, a),
        text_before(a, b) && text_before(b, c) ==> text_before(a, c),
        !(text_before(a, b) && text_before(b, a)),
    decreases a.len(),
{
    if a.len() > 0 {
        law_texts_are_ordered(a.skip(1), b.skip(1), c.skip(1));
        if a.skip(1) == b.skip(1) && b.len() > 0 && a[0] == b[0] {
            assert forall|i: int| 0 <= i < a.len() implies a[i] == b[i] by {
                if i > 0 {
                    assert(a[i] == a.skip(1)[i - 1]);
                    assert(b[i] == b.skip(1)[i - 1]);
                }
            }
            assert(a.skip(1).len() == b.skip(1).len());
            assert(a =~= b);
        }
    } else if b.len() == 0 {
        assert(a =~= b);
    }
}

/// Whether `a` goes before `b`.
pub fn goes_before_text(a: &str, b: &str) -> (r: bool)
    ensures
        r == text_before(a@, b@),
{
    let x = chars_of(a);
    let y = chars_of(b);
    let mut i: usize = 0;
    proof {
        assert(a@.skip(0) =~= a@);
        assert(b@.skip(0) =~= b@);
    }
    while i < x.len() && i < y.len()
        invariant
            i <= x@.len(),
            i <= y@.len(),
            x@ == a@,
            y@ == b@,
            text_before(a@, b@) == text_before(a@.skip(i as int), b@.skip(i as int)),
        decreases x@.len() - i,
    {
        proof {
            assert(a@.skip(i as int).skip(1) =~= a@.skip(i + 1));
            assert(b@.skip(i as int).skip(1) =~= b@.skip(i + 1));
        }
        if x[i] != y[i] {
            return x[i] < y[i];
        }
        i = i + 1;
    }
    i < y.len()
}

/// Puts a text into its place in a list that is in order.
pub fn insert_in_order(list: &mut Vec<String>, text: String)
    requires
        in_text_order(crate::task::texts(old(list)@)),
        !crate::task::texts(old(list)@).contains(text@),
    ensures
        in_text_order(crate::task::texts(final(list)@)),
        forall|x: Seq<char>| #[trigger]
            crate::task::texts(final(list)@).contains(x) <==> crate::task::texts(
                old(list)@,
            ).contains(x) || x == text@,
{
    let ghost before = crate::task::texts(list@);
    let mut k: usize = 0;
    while k < list.len() && goes_before_text(list[k].as_str(), text.as_str())
        invariant
            k <= list@.len(),
            before == crate::task::texts(list@),
            forall|j: int| 0 <= j < k ==> text_before(#[trigger] before[j], text@),
        decreases list@.len() - k,
    {
        k = k + 1;
    }
    proof {
        assert forall|j: int| k <= j < before.len() implies text_before(
            text@,
            #[trigger] before[j],
        ) by {
            assert(before.contains(before[k as int]));
            law_texts_are_ordered(before[k as int], text@, before[j]);
            law_texts_are_ordered(text@, before[k as int], before[j]);
        }
    }
    list.insert(k, text);
    proof {
        let after = crate::task::texts(list@);
        assert(after =~= before.insert(k as int, text@));
        assert forall|i: int, j: int| 0 <= i < j < after.len() implies text_before(
            #[trigger] after[i],
            #[trigger] after[j],
        ) by {
            let a = if i < k {
                i
            } else {
                i - 1
            };
            let b = if j < k {
                j
            } else {
                j - 1
            };
            if i != k && j != k {
                assert(text_before(before[a], before[b]));
            } else if i == k {
                assert(after[j] == before[b]);
            } else {
                assert(after[i] == before[a]);
            }
        }
        assert forall|x: Seq<char>| #[trigger] after.contains(x) <==> before.contains(x) || x
            == text@ by {
            if before.contains(x) {
                let j = choose|j: int| 0 <= j < before.len() && before[j] == x;
                assert(after[if j < k {
                    j
                } else {
                    j + 1
                }] == x);
            }
            if x == text@ {
                assert(after[k as int] == x);
            }
            if after.contains(x) && x != text@ {
                let j = choose|j: int| 0 <= j < after.len() && after[j] == x;
                assert(before[if j < k {
                    j
                } else {
                    j - 1
                }] == x);
            }
        }
    }
}

/// A number in decimal reads back as that number: it is made of digits alone, has a zero in front
/// only where it is zero, and a number with one digit more ends in that digit.
pub proof fn law_decimal_reads_back(n: nat)
    ensures
        decimal(n).len() > 0,
        forall|i: int| 0 <= i < decimal(n).len() ==> '0' <= #[trigger] decimal(n)[i] <= '9',
        n > 0 ==> decimal(n)[0] != '0',
        n < 10 ==> decimal(n).len() == 1 && decimal(n)[0] as int == 48 + n,
        n >= 10 ==> decimal(n).drop_last() == decimal(n / 10) && decimal(n).last() as int == 48 + n
            % 10,
        digits_value(decimal(n)) == n,
    decreases n,
{
    reveal_with_fuel(digits_value, 2);
    if n >= 10 {
        law_decimal_reads_back(n / 10);
        let front = decimal(n / 10);
        assert(decimal(n).drop_last() =~= front);
        assert forall|i: int| 0 <= i < decimal(n).len() implies '0' <= #[trigger] decimal(n)[i]
            <= '9' by {
            if i < front.len() {
                assert(decimal(n)[i] == front[i]);
            }
        }
        assert(decimal(n)[0] == front[0]);
    } else {
        assert(decimal(n).drop_last() =~= Seq::<char>::empty());
    }
}

/// The value of digits is that of decimal notation: each digit further to the left counts ten
/// times as much.
pub proof fn law_digits_count_tenfold(s: Seq<char>, c: char)
    requires
        '0' <= c <= '9',
    ensures
        digits_value(Seq::empty()) == 0,
        digits_value(s.push(c)) == 10 * digits_value(s) + (c as int - 48),
        all_digits(s.push(c)) <==> all_digits(s),
        all_digits(s) <==> forall|i: int| 0 <= i < s.len() ==> 48 <= #[trigger] s[i] as int <= 57,
{
    assert(s.push(c).drop_last() =~= s);
    if all_digits(s.push(c)) {
        assert forall|i: int| 0 <= i < s.len() implies '0' <= #[trigger] s[i] <= '9' by {
            assert(s.push(c)[i] == s[i]);
        }
    }
}

/// A negative number has a minus sign before the digits of its magnitude.
pub proof fn law_sign_stands_in_front(n: nat)
    ensures
        signed_decimal(n as int) == decimal(n),
        n > 0 ==> signed_decimal(-n) == seq!['-'] + decimal(n),
{
}

/// White space is what Unicode says it is: no printing character of ASCII, and of ASCII the space
/// and the controls from the tab to the carriage return.
pub proof fn law_white_space_parts_words(c: char)
    ensures
        (c as u32) < 128 ==> (is_space(c) <==> c == ' ' || 9 <= c as u32 <= 13),
        (c as u32) >= 128 ==> (is_space(c) <==> c == '\u{85}' || c == '\u{a0}' || c == '\u{1680}'
            || '\u{2000}' <= c <= '\u{200a}' || c == '\u{2028}' || c == '\u{2029}' || c
            == '\u{202f}' || c == '\u{205f}' || c == '\u{3000}'),
{
}

/// The first place with or without white space is the first: nothing before it is such a place.
pub proof fn law_first_place_is_the_first(s: Seq<char>, from: int, want: bool, i: int)
    requires
        0 <= from <= s.len(),
    ensures
        from <= space_from(s, from, want) <= s.len(),
        from <= i < space_from(s, from, want) ==> is_space(s[i]) != want,
        space_from(s, from, want) < s.len() ==> is_space(s[space_from(s, from, want)]) == want,
    decreases s.len() - from,
{
    if from < s.len() && is_space(s[from]) != want {
        law_first_place_is_the_first(s, from + 1, want, i);
    }
}

/// Each field of a text begins with a character that is no white space and that has white space
/// or nothing before it: a text has as many fields as such places.
pub proof fn law_fields_are_counted_by_their_beginnings(s: Seq<char>, from: int)
    requires
        0 <= from <= s.len(),
        from == 0 || from == s.len() || is_space(s[from]) || is_space(s[from - 1]),
    ensures
        ({
            let begins = Set::new(
                |i: int|
                    from <= i < s.len() && !is_space(s[i]) && (i == 0 || is_space(s[i - 1])),
            );
            begins.finite() && field_count(s, from) == begins.len()
        }),
    decreases s.len() - from,
{
    let begins = Set::new(
        |i: int| from <= i < s.len() && !is_space(s[i]) && (i == 0 || is_space(s[i - 1])),
    );
    let start = space_from(s, from, false);
    lemma_space_from(s, from, false);
    lemma_space_from(s, start, true);
    if start >= s.len() {
        assert forall|i: int| !begins.contains(i) by {
            if begins.contains(i) {
                law_first_place_is_the_first(s, from, false, i);
            }
        }
        assert(begins =~= Set::<int>::empty());
    } else {
        let end = space_from(s, start, true);
        law_first_place_is_the_first(s, start, true, start);
        law_fields_are_counted_by_their_beginnings(s, end);
        let rest = Set::new(
            |i: int| end <= i < s.len() && !is_space(s[i]) && (i == 0 || is_space(s[i - 1])),
        );
        assert(begins =~= rest.insert(start)) by {
            assert forall|i: int| begins.contains(i) == rest.insert(start).contains(i) by {
                law_first_place_is_the_first(s, from, false, i);
                law_first_place_is_the_first(s, from, false, start - 1);
                law_first_place_is_the_first(s, start, true, i);
                if start < i {
                    law_first_place_is_the_first(s, start, true, i - 1);
                }
            }
        }
        assert(!rest.contains(start));
    }
}

/// One text goes before another where it has the smaller character at the first place at which
/// they differ, or where it is the beginning of the other.
pub proof fn law_texts_are_ordered_by_their_first_difference(a: Seq<char>, b: Seq<char>, k: int)
    requires
        0 <= k <= a.len(),
        k <= b.len(),
        a.take(k) == b.take(k),
    ensures
        k < a.len() && k < b.len() && a[k] != b[k] ==> (text_before(a, b) <==> a[k] < b[k]),
        k == a.len() ==> (text_before(a, b) <==> k < b.len()),
        k == b.len() ==> !text_before(a, b),
    decreases k,
{
    if k > 0 {
        assert(a[0] == a.take(k)[0] && b[0] == b.take(k)[0]);
        assert(a.skip(1).take(k - 1) =~= a.take(k).skip(1));
        assert(b.skip(1).take(k - 1) =~= b.take(k).skip(1));
        law_texts_are_ordered_by_their_first_difference(a.skip(1), b.skip(1), k - 1);
    }
}

} // verus!

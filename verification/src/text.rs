//! Strings: comma lists, decimal numbers and slash-separated paths.

use vstd::prelude::*;

verus! {

/// Whether two strings hold the same characters.
pub fn same(a: &str, b: &str) -> (r: bool)
    ensures
        r == (a@ == b@),
{
    let n: usize = a.unicode_len();
    if n != b.unicode_len() {
        return false;
    }
    let mut i: usize = 0;
    while i < n
        invariant
            i <= n,
            n == a@.len(),
            n == b@.len(),
            forall|k: int| 0 <= k < i ==> a@[k] == b@[k],
        decreases n - i,
    {
        if a.get_char(i) != b.get_char(i) {
            return false;
        }
        i = i + 1;
    }
    assert(a@ =~= b@);
    true
}

/// White space: the characters with the Unicode property `White_Space`.
pub open spec fn white_space(c: char) -> bool {
    let n = c as int;
    ||| 0x9 <= n <= 0xd || n == 0x20 || n == 0x85 || n == 0xa0 || n == 0x1680
    ||| 0x2000 <= n <= 0x200a || n == 0x2028 || n == 0x2029 || n == 0x202f || n == 0x205f
    ||| n == 0x3000
}

fn is_white(c: char) -> (b: bool)
    ensures
        b == white_space(c),
{
    let n: u32 = c as u32;
    (0x9 <= n && n <= 0xd) || n == 0x20 || n == 0x85 || n == 0xa0 || n == 0x1680 || (0x2000 <= n
        && n <= 0x200a) || n == 0x2028 || n == 0x2029 || n == 0x202f || n == 0x205f || n == 0x3000
}

pub open spec fn trim_start(s: Seq<char>) -> Seq<char>
    decreases s.len(),
{
    if s.len() > 0 && white_space(s[0]) {
        trim_start(s.subrange(1, s.len() as int))
    } else {
        s
    }
}

pub open spec fn trim_end(s: Seq<char>) -> Seq<char>
    decreases s.len(),
{
    if s.len() > 0 && white_space(s.last()) {
        trim_end(s.drop_last())
    } else {
        s
    }
}

/// The text without white space at its ends.
pub open spec fn trimmed(s: Seq<char>) -> Seq<char> {
    trim_end(trim_start(s))
}

/// What is left of `a..b` of a text is all between white space.
pub open spec fn holds_all(s: Seq<char>, a: int, b: int) -> bool {
    &&& 0 <= a <= b <= s.len()
    &&& forall|i: int| 0 <= i < a ==> white_space(#[trigger] s[i])
    &&& forall|i: int| b <= i < s.len() ==> white_space(#[trigger] s[i])
}

proof fn lemma_trim_start(s: Seq<char>) -> (a: int)
    ensures
        0 <= a <= s.len(),
        trim_start(s) == s.skip(a),
        forall|i: int| 0 <= i < a ==> white_space(#[trigger] s[i]),
        a < s.len() ==> !white_space(s[a]),
    decreases s.len(),
{
    if s.len() > 0 && white_space(s[0]) {
        let rest = s.subrange(1, s.len() as int);
        let a = lemma_trim_start(rest);
        assert(rest.skip(a) =~= s.skip(a + 1));
        assert forall|i: int| 0 <= i < a + 1 implies white_space(#[trigger] s[i]) by {
            if i > 0 {
                assert(rest[i - 1] == s[i]);
            }
        }
        a + 1
    } else {
        assert(s.skip(0) =~= s);
        0
    }
}

proof fn lemma_trim_end(s: Seq<char>) -> (b: int)
    ensures
        0 <= b <= s.len(),
        trim_end(s) == s.take(b),
        forall|i: int| b <= i < s.len() ==> white_space(#[trigger] s[i]),
        b > 0 ==> !white_space(s[b - 1]),
    decreases s.len(),
{
    if s.len() > 0 && white_space(s.last()) {
        let rest = s.drop_last();
        let b = lemma_trim_end(rest);
        assert(rest.take(b) =~= s.take(b));
        assert forall|i: int| b <= i < s.len() implies white_space(#[trigger] s[i]) by {
            if i < rest.len() {
                assert(rest[i] == s[i]);
            }
        }
        b
    } else {
        assert(s.take(s.len() as int) =~= s);
        s.len() as int
    }
}

/// A trimmed text is a part of the text with nothing but white space around it, and
/// neither begins nor ends with white space.
pub proof fn trimming_cuts_white_space_only(s: Seq<char>)
    ensures
        trimmed(s).len() > 0 ==> !white_space(trimmed(s)[0]) && !white_space(trimmed(s).last()),
        exists|a: int, b: int| #[trigger]
            holds_all(s, a, b) && trimmed(s) == s.subrange(a, b),
{
    let a = lemma_trim_start(s);
    let t = s.skip(a);
    let b = lemma_trim_end(t);
    assert(t.take(b) =~= s.subrange(a, a + b));
    assert forall|i: int| a + b <= i < s.len() implies white_space(#[trigger] s[i]) by {
        assert(t[i - a] == s[i]);
    }
    assert(holds_all(s, a, a + b));
}

/// The pieces between separators; one more than there are separators.
pub open spec fn split(s: Seq<char>, sep: char) -> Seq<Seq<char>>
    decreases s.len(),
{
    if s.len() == 0 {
        seq![Seq::<char>::empty()]
    } else {
        let head = split(s.drop_last(), sep);
        if s.last() == sep {
            head.push(Seq::empty())
        } else {
            head.update(head.len() - 1, head.last().push(s.last()))
        }
    }
}

/// The pieces, trimmed, without the empty ones.
pub open spec fn kept(pieces: Seq<Seq<char>>) -> Seq<Seq<char>>
    decreases pieces.len(),
{
    if pieces.len() == 0 {
        Seq::empty()
    } else {
        let t = trimmed(pieces.last());
        if t.len() > 0 {
            kept(pieces.drop_last()).push(t)
        } else {
            kept(pieces.drop_last())
        }
    }
}

/// The items of a comma-separated list.
pub open spec fn csv_items(s: Seq<char>) -> Seq<Seq<char>> {
    kept(split(s, ','))
}

/// The texts that strings hold.
pub open spec fn texts(v: Seq<String>) -> Seq<Seq<char>> {
    Seq::new(v.len(), |i: int| v[i]@)
}

fn trim_range(s: &str, from: usize, to: usize) -> (r: (usize, usize))
    requires
        from <= to <= s@.len(),
    ensures
        from <= r.0 <= r.1 <= to,
        s@.subrange(r.0 as int, r.1 as int) == trimmed(s@.subrange(from as int, to as int)),
{
    let ghost whole = s@.subrange(from as int, to as int);
    let mut a: usize = from;
    while a < to && is_white(s.get_char(a))
        invariant_except_break
            true,
        invariant
            from <= a <= to <= s@.len(),
            whole == s@.subrange(from as int, to as int),
            trim_start(whole) == trim_start(s@.subrange(a as int, to as int)),
        ensures
            a == to || !white_space(s@[a as int]),
        decreases to - a,
    {
        proof {
            let cur = s@.subrange(a as int, to as int);
            assert(cur.subrange(1, cur.len() as int) =~= s@.subrange(a + 1, to as int));
            assert(cur[0] == s@[a as int]);
        }
        a = a + 1;
    }
    let ghost mid = s@.subrange(a as int, to as int);
    assert(trim_start(whole) == mid);
    let mut b: usize = to;
    while b > a && is_white(s.get_char(b - 1))
        invariant_except_break
            true,
        invariant
            from <= a <= b <= to <= s@.len(),
            mid == s@.subrange(a as int, to as int),
            trim_end(mid) == trim_end(s@.subrange(a as int, b as int)),
        ensures
            b == a || !white_space(s@[b - 1]),
        decreases b - a,
    {
        proof {
            let cur = s@.subrange(a as int, b as int);
            assert(cur.drop_last() =~= s@.subrange(a as int, b - 1));
            assert(cur.last() == s@[b - 1]);
        }
        b = b - 1;
    }
    (a, b)
}

proof fn lemma_split_step(s: Seq<char>, sep: char, i: int)
    requires
        0 <= i < s.len(),
    ensures
        ({
            let head = split(s.take(i), sep);
            &&& head.len() > 0
            &&& split(s.take(i + 1), sep) == if s[i] == sep {
                head.push(Seq::empty())
            } else {
                head.update(head.len() - 1, head.last().push(s[i]))
            }
        }),
{
    let grown = s.take(i + 1);
    assert(grown.drop_last() =~= s.take(i));
    assert(grown.last() == s[i]);
    lemma_split_nonempty(s.take(i), sep);
}

proof fn lemma_split_nonempty(s: Seq<char>, sep: char)
    ensures
        split(s, sep).len() > 0,
    decreases s.len(),
{
    if s.len() > 0 {
        lemma_split_nonempty(s.drop_last(), sep);
    }
}

/// Splits a comma-separated list; items are trimmed and empty ones left out.
pub fn split_csv(s: &str) -> (items: Vec<String>)
    ensures
        texts(items@) == csv_items(s@),
{
    let n: usize = s.unicode_len();
    let mut items: Vec<String> = Vec::new();
    let mut start: usize = 0;
    let mut i: usize = 0;
    assert(s@.take(0) =~= Seq::<char>::empty());
    assert(s@.subrange(0, 0) =~= Seq::<char>::empty());
    assert(texts(items@) =~= Seq::<Seq<char>>::empty());
    assert(split(s@.take(0), ',').drop_last() =~= Seq::<Seq<char>>::empty());
    while i < n
        invariant
            start <= i <= n,
            n == s@.len(),
            split(s@.take(i as int), ',').len() > 0,
            split(s@.take(i as int), ',').last() == s@.subrange(start as int, i as int),
            texts(items@) == kept(split(s@.take(i as int), ',').drop_last()),
        decreases n - i,
    {
        let c = s.get_char(i);
        proof {
            lemma_split_step(s@, ',', i as int);
        }
        let ghost head = split(s@.take(i as int), ',');
        let ghost grown = split(s@.take(i + 1), ',');
        if c == ',' {
            let (a, b) = trim_range(s, start, i);
            proof {
                assert(grown.drop_last() =~= head);
                assert(s@.subrange(i + 1, i + 1) =~= Seq::<char>::empty());
            }
            if a < b {
                let ghost was = items@;
                items.push(s.substring_char(a, b).to_owned());
                assert(texts(items@) =~= texts(was).push(s@.subrange(a as int, b as int)));
            }
            start = i + 1;
        } else {
            proof {
                assert(grown.drop_last() =~= head.drop_last());
                assert(s@.subrange(start as int, i + 1) =~= s@.subrange(start as int, i as int).push(c));
            }
        }
        i = i + 1;
    }
    assert(s@.take(n as int) =~= s@);
    let (a, b) = trim_range(s, start, n);
    if a < b {
        let ghost was = items@;
        items.push(s.substring_char(a, b).to_owned());
        assert(texts(items@) =~= texts(was).push(s@.subrange(a as int, b as int)));
    }
    items
}

pub(crate) fn copy_strings(v: &Vec<String>) -> (out: Vec<String>)
    ensures
        texts(out@) == texts(v@),
{
    let mut out: Vec<String> = Vec::new();
    let mut i: usize = 0;
    while i < v.len()
        invariant
            i <= v.len(),
            out.len() == i,
            forall|k: int| 0 <= k < i ==> (#[trigger] out@[k])@ == v@[k]@,
        decreases v.len() - i,
    {
        out.push(v[i].clone());
        i = i + 1;
    }
    assert(texts(out@) =~= texts(v@));
    out
}

/// The items of a comma-separated argument, or the fallback without one.
pub fn parse_csv(arg: Option<&str>, fallback: &Vec<String>) -> (items: Vec<String>)
    ensures
        texts(items@) == match arg {
            Some(s) => csv_items(s@),
            None => texts(fallback@),
        },
{
    match arg {
        Some(s) => split_csv(s),
        None => copy_strings(fallback),
    }
}

pub open spec fn is_digit(c: char) -> bool {
    '0' <= c && c <= '9'
}

pub open spec fn all_digits(s: Seq<char>) -> bool {
    forall|i: int| 0 <= i < s.len() ==> is_digit(#[trigger] s[i])
}

/// Value of a string of decimal digits.
pub open spec fn digits_value(s: Seq<char>) -> int
    decreases s.len(),
{
    if s.len() == 0 {
        0
    } else {
        10 * digits_value(s.drop_last()) + (s.last() as int - '0' as int)
    }
}

/// The number without its plus sign.
pub open spec fn unsigned_part(s: Seq<char>) -> Seq<char> {
    if s.len() > 0 && s[0] == '+' {
        s.subrange(1, s.len() as int)
    } else {
        s
    }
}

/// The number that a text stands for: decimal digits, at least one, after an
/// optional plus sign, with a value that 64 bits hold.
pub open spec fn number(s: Seq<char>) -> Option<u64> {
    let d = unsigned_part(s);
    if d.len() > 0 && all_digits(d) && digits_value(d) <= u64::MAX {
        Some(digits_value(d) as u64)
    } else {
        None
    }
}

proof fn lemma_value_monotone(s: Seq<char>, i: int)
    requires
        0 <= i <= s.len(),
        all_digits(s),
    ensures
        0 <= digits_value(s.take(i)) <= digits_value(s),
    decreases s.len(),
{
    assert(s.take(s.len() as int) =~= s);
    if i < s.len() {
        let h = s.drop_last();
        assert(h.take(i) =~= s.take(i));
        assert(is_digit(s.last()));
        assert forall|k: int| 0 <= k < h.len() implies is_digit(#[trigger] h[k]) by {
            assert(h[k] == s[k]);
        }
        lemma_value_monotone(h, i);
    } else {
        lemma_value_nonneg(s);
    }
}

proof fn lemma_value_nonneg(s: Seq<char>)
    requires
        all_digits(s),
    ensures
        digits_value(s) >= 0,
    decreases s.len(),
{
    if s.len() > 0 {
        let h = s.drop_last();
        assert(is_digit(s.last()));
        assert forall|k: int| 0 <= k < h.len() implies is_digit(#[trigger] h[k]) by {
            assert(h[k] == s[k]);
        }
        lemma_value_nonneg(h);
    }
}

/// Reads an unsigned decimal number.
pub fn parse_u64(s: &str) -> (r: Option<u64>)
    ensures
        r == number(s@),
{
    let n: usize = s.unicode_len();
    let start: usize = if n > 0 && s.get_char(0) == '+' {
        1
    } else {
        0
    };
    let ghost d = unsigned_part(s@);
    assert(d =~= s@.subrange(start as int, n as int));
    if start == n {
        return None;
    }
    let mut value: u64 = 0;
    let mut i: usize = start;
    assert(d.take(0) =~= Seq::<char>::empty());
    while i < n
        invariant
            start <= i <= n,
            n == s@.len(),
            d == unsigned_part(s@),
            d =~= s@.subrange(start as int, n as int),
            value == digits_value(d.take(i - start)),
            forall|k: int| 0 <= k < i - start ==> is_digit(#[trigger] d[k]),
        decreases n - i,
    {
        let c = s.get_char(i);
        let ghost at = i - start;
        assert(d[at] == c);
        if !('0' <= c && c <= '9') {
            assert(!all_digits(d));
            return None;
        }
        let digit: u64 = (c as u32 - '0' as u32) as u64;
        proof {
            assert(d.take(at + 1).drop_last() =~= d.take(at));
            assert(d.take(at + 1).last() == c);
        }
        if value > (u64::MAX - digit) / 10 {
            proof {
                assert(digits_value(d.take(at + 1)) > u64::MAX);
                if all_digits(d) {
                    lemma_value_monotone(d, at + 1);
                }
            }
            return None;
        }
        value = value * 10 + digit;
        i = i + 1;
    }
    assert(d.take(d.len() as int) =~= d);
    Some(value)
}

pub open spec fn digit_char(d: int) -> char {
    ('0' as int + d) as char
}

/// Decimal digits of a number.
pub open spec fn decimal(n: int) -> Seq<char>
    decreases n,
{
    if n < 10 {
        seq![digit_char(n)]
    } else {
        decimal(n / 10).push(digit_char(n % 10))
    }
}

fn digit_string(d: u64) -> (s: &'static str)
    requires
        d < 10,
    ensures
        s@ == seq![digit_char(d as int)],
{
    proof {
        reveal_strlit("0");
        reveal_strlit("1");
        reveal_strlit("2");
        reveal_strlit("3");
        reveal_strlit("4");
        reveal_strlit("5");
        reveal_strlit("6");
        reveal_strlit("7");
        reveal_strlit("8");
        reveal_strlit("9");
        assert("0"@ =~= seq![digit_char(0)]);
        assert("1"@ =~= seq![digit_char(1)]);
        assert("2"@ =~= seq![digit_char(2)]);
        assert("3"@ =~= seq![digit_char(3)]);
        assert("4"@ =~= seq![digit_char(4)]);
        assert("5"@ =~= seq![digit_char(5)]);
        assert("6"@ =~= seq![digit_char(6)]);
        assert("7"@ =~= seq![digit_char(7)]);
        assert("8"@ =~= seq![digit_char(8)]);
        assert("9"@ =~= seq![digit_char(9)]);
    }
    if d == 0 {
        "0"
    } else if d == 1 {
        "1"
    } else if d == 2 {
        "2"
    } else if d == 3 {
        "3"
    } else if d == 4 {
        "4"
    } else if d == 5 {
        "5"
    } else if d == 6 {
        "6"
    } else if d == 7 {
        "7"
    } else if d == 8 {
        "8"
    } else {
        "9"
    }
}

/// The decimal digits of a number, without leading zeros.
pub fn decimal_string(n: u64) -> (s: String)
    ensures
        s@ == decimal(n as int),
{
    decimal_wide(n as u128)
}

/// The decimal digits of a wide number, without leading zeros.
pub fn decimal_wide(n: u128) -> (s: String)
    ensures
        s@ == decimal(n as int),
    decreases n,
{
    if n < 10 {
        return digit_string(n as u64).to_owned();
    }
    let mut s = decimal_wide(n / 10);
    let ghost head = s@;
    s.append(digit_string((n % 10) as u64));
    assert(s@ =~= head.push(digit_char(n as int % 10)));
    s
}

/// Reading back a number's decimal digits gives the number.
pub proof fn decimal_reads_back(n: u64)
    ensures
        number(decimal(n as int)) == Some(n),
{
    lemma_decimal(n as int);
    let s = decimal(n as int);
    assert(is_digit(s[0]));
    assert(unsigned_part(s) == s);
}

proof fn lemma_decimal(n: int)
    requires
        n >= 0,
    ensures
        decimal(n).len() > 0,
        all_digits(decimal(n)),
        digits_value(decimal(n)) == n,
    decreases n,
{
    if n < 10 {
        let s = decimal(n);
        assert(s.drop_last() =~= Seq::<char>::empty());
        assert(digits_value(s.drop_last()) == 0);
    } else {
        lemma_decimal(n / 10);
        let s = decimal(n);
        assert(s.drop_last() =~= decimal(n / 10));
        assert forall|i: int| 0 <= i < s.len() implies is_digit(#[trigger] s[i]) by {
            if i < s.len() - 1 {
                assert(s[i] == decimal(n / 10)[i]);
            }
        }
    }
}

/// The numbers among the items of a comma-separated list.
pub open spec fn numbers_in(items: Seq<Seq<char>>) -> Seq<u64>
    decreases items.len(),
{
    if items.len() == 0 {
        Seq::empty()
    } else {
        let head = numbers_in(items.drop_last());
        match number(items.last()) {
            Some(n) => head.push(n),
            None => head,
        }
    }
}

/// The ticker ids that a comma-separated filter allows; anything that is no
/// number is passed over. No filter allows all.
pub fn parse_ticker_filter(arg: Option<&str>) -> (ids: Option<Vec<u64>>)
    ensures
        ids is Some <==> arg is Some,
        ids matches Some(v) ==> v@ == numbers_in(csv_items(arg->Some_0@)),
{
    let s = match arg {
        Some(s) => s,
        None => return None,
    };
    let items = split_csv(s);
    let mut ids: Vec<u64> = Vec::new();
    let mut i: usize = 0;
    assert(texts(items@).take(0) =~= Seq::<Seq<char>>::empty());
    while i < items.len()
        invariant
            i <= items.len(),
            texts(items@) == csv_items(s@),
            ids@ == numbers_in(texts(items@).take(i as int)),
        decreases items.len() - i,
    {
        proof {
            let grown = texts(items@).take(i + 1);
            assert(grown.drop_last() =~= texts(items@).take(i as int));
            assert(grown.last() == items@[i as int]@);
        }
        if let Some(n) = parse_u64(items[i].as_str()) {
            ids.push(n);
        }
        i = i + 1;
    }
    assert(texts(items@).take(items.len() as int) =~= texts(items@));
    Some(ids)
}

/// `base` with `part` below it.
pub open spec fn joined(base: Seq<char>, part: Seq<char>) -> Seq<char> {
    if part.len() > 0 && part[0] == '/' {
        part
    } else if base.len() == 0 || base.last() == '/' {
        base + part
    } else {
        base + seq!['/'] + part
    }
}

/// Joins two slash-separated paths; an absolute `part` stands alone.
pub fn join_path(base: &str, part: &str) -> (p: String)
    ensures
        p@ == joined(base@, part@),
{
    let m: usize = part.unicode_len();
    if m > 0 && part.get_char(0) == '/' {
        return part.to_owned();
    }
    let n: usize = base.unicode_len();
    let mut p: String = base.to_owned();
    if n > 0 && base.get_char(n - 1) != '/' {
        p.append("/");
        proof {
            reveal_strlit("/");
            assert("/"@ =~= seq!['/']);
        }
    }
    p.append(part);
    p
}

/// Whether a text is among strings.
pub fn holds(items: &Vec<String>, s: &str) -> (b: bool)
    ensures
        b == texts(items@).contains(s@),
{
    let mut i: usize = 0;
    while i < items.len()
        invariant
            i <= items.len(),
            forall|k: int| 0 <= k < i ==> (#[trigger] texts(items@)[k]) != s@,
        decreases items.len() - i,
    {
        if same(items[i].as_str(), s) {
            assert(texts(items@)[i as int] == s@);
            return true;
        }
        assert(texts(items@)[i as int] != s@);
        i = i + 1;
    }
    false
}

/// The text without white space at its ends.
pub fn trim(s: &str) -> (t: String)
    ensures
        t@ == trimmed(s@),
{
    let n: usize = s.unicode_len();
    let (a, b) = trim_range(s, 0, n);
    assert(s@.subrange(0, n as int) =~= s@);
    s.substring_char(a, b).to_owned()
}

/// Whether a text occurs within another.
pub open spec fn occurs(needle: Seq<char>, hay: Seq<char>) -> bool {
    exists|i: int|
        0 <= i <= hay.len() - needle.len() && #[trigger] hay.subrange(i, i + needle.len())
            == needle
}

fn stands_at(hay: &str, needle: &str, at: usize) -> (b: bool)
    requires
        at + needle@.len() <= hay@.len(),
    ensures
        b == (hay@.subrange(at as int, at + needle@.len()) == needle@),
{
    let n: usize = needle.unicode_len();
    let m: usize = hay.unicode_len();
    let ghost part = hay@.subrange(at as int, at + needle@.len());
    let mut i: usize = 0;
    while i < n
        invariant
            i <= n,
            n == needle@.len(),
            m == hay@.len(),
            at + n <= m,
            part == hay@.subrange(at as int, at + needle@.len()),
            forall|k: int| 0 <= k < i ==> part[k] == #[trigger] needle@[k],
        decreases n - i,
    {
        if hay.get_char(at + i) != needle.get_char(i) {
            assert(part[i as int] != needle@[i as int]);
            return false;
        }
        i = i + 1;
    }
    assert(part =~= needle@);
    true
}

/// Whether a text occurs within another.
pub fn contains(hay: &str, needle: &str) -> (b: bool)
    ensures
        b == occurs(needle@, hay@),
{
    let n: usize = needle.unicode_len();
    let m: usize = hay.unicode_len();
    if n > m {
        return false;
    }
    let mut i: usize = 0;
    while i <= m - n
        invariant
            i <= m - n + 1,
            n == needle@.len(),
            m == hay@.len(),
            n <= m,
            forall|k: int| 0 <= k < i ==> #[trigger] hay@.subrange(k, k + n) != needle@,
        decreases m - n + 1 - i,
    {
        if stands_at(hay, needle, i) {
            return true;
        }
        if i == m - n {
            assert(forall|k: int| 0 <= k <= m - n ==> #[trigger] hay@.subrange(k, k + n) != needle@);
            return false;
        }
        i = i + 1;
    }
    false
}

/// The texts in a row, with a separator between each two.
pub open spec fn joined_with(items: Seq<Seq<char>>, sep: Seq<char>) -> Seq<char>
    decreases items.len(),
{
    if items.len() == 0 {
        Seq::empty()
    } else if items.len() == 1 {
        items[0]
    } else {
        joined_with(items.drop_last(), sep) + sep + items.last()
    }
}

/// Pieces give back the text when they are joined with their separator, and none of them
/// holds it.
pub proof fn pieces_join_back(s: Seq<char>, sep: char)
    ensures
        joined_with(split(s, sep), seq![sep]) == s,
        forall|i: int|
            0 <= i < split(s, sep).len() ==> !(#[trigger] split(s, sep)[i]).contains(sep),
    decreases s.len(),
{
    let all = split(s, sep);
    if s.len() == 0 {
        assert(joined_with(all, seq![sep]) =~= s);
    } else {
        let t = s.drop_last();
        let head = split(t, sep);
        pieces_join_back(t, sep);
        lemma_split_nonempty(t, sep);
        assert(s =~= t.push(s.last()));
        if s.last() == sep {
            assert(all.drop_last() =~= head);
            assert(joined_with(all, seq![sep]) =~= s);
            assert forall|i: int| 0 <= i < all.len() implies !(#[trigger] all[i]).contains(sep) by {
                if i < head.len() {
                    assert(all[i] == head[i]);
                }
            }
        } else {
            assert(all.drop_last() =~= head.drop_last());
            assert(all.last() =~= head.last().push(s.last()));
            assert(joined_with(all, seq![sep]) =~= s);
            assert forall|i: int| 0 <= i < all.len() implies !(#[trigger] all[i]).contains(sep) by {
                assert(!head[i].contains(sep));
                if i == all.len() - 1 && all[i].contains(sep) {
                    let k = choose|k: int| 0 <= k < all[i].len() && all[i][k] == sep;
                    assert(head[i][k] == sep);
                }
            }
        }
    }
}

/// Joins strings with a separator.
pub fn join(items: &Vec<String>, sep: &str) -> (s: String)
    ensures
        s@ == joined_with(texts(items@), sep@),
{
    let mut s: String = "".to_owned();
    proof {
        reveal_strlit("");
        assert(""@ =~= Seq::<char>::empty());
        assert(texts(items@).take(0) =~= Seq::<Seq<char>>::empty());
    }
    let mut i: usize = 0;
    while i < items.len()
        invariant
            i <= items.len(),
            s@ == joined_with(texts(items@).take(i as int), sep@),
        decreases items.len() - i,
    {
        let ghost grown = texts(items@).take(i + 1);
        assert(grown.drop_last() =~= texts(items@).take(i as int));
        assert(grown.last() == items@[i as int]@);
        if i > 0 {
            s.append(sep);
        }
        s.append(items[i].as_str());
        proof {
            if i == 0 {
                assert(s@ =~= items@[0]@);
            } else {
                assert(s@ =~= joined_with(texts(items@).take(i as int), sep@) + sep@ + items@[i as int]@);
            }
        }
        i = i + 1;
    }
    assert(texts(items@).take(i as int) =~= texts(items@));
    s
}

/// A signed number in decimal digits.
pub open spec fn signed_decimal(n: int) -> Seq<char> {
    if n < 0 {
        seq!['-'] + decimal(-n)
    } else {
        decimal(n)
    }
}

/// A signed number in decimal digits.
pub fn signed_string(n: i32) -> (s: String)
    ensures
        s@ == signed_decimal(n as int),
{
    signed_i64(n as i64)
}

/// A signed number in decimal digits.
pub fn signed_i64(n: i64) -> (s: String)
    ensures
        s@ == signed_decimal(n as int),
{
    signed_wide(n as i128)
}

/// A wide signed number in decimal digits.
pub fn signed_wide(n: i128) -> (s: String)
    requires
        n > i128::MIN,
    ensures
        s@ == signed_decimal(n as int),
{
    if n < 0 {
        let mut s: String = "-".to_owned();
        let digits = decimal_wide((-n) as u128);
        s.append(digits.as_str());
        proof {
            reveal_strlit("-");
            assert("-"@ =~= seq!['-']);
        }
        s
    } else {
        decimal_wide(n as u128)
    }
}

/// The last `n` items, in order.
pub open spec fn last_of(items: Seq<Seq<char>>, n: int) -> Seq<Seq<char>> {
    if items.len() <= n {
        items
    } else {
        items.skip(items.len() - n)
    }
}

/// The last `n` strings, in order.
pub fn tail(items: &Vec<String>, n: usize) -> (out: Vec<String>)
    ensures
        texts(out@) == last_of(texts(items@), n as int),
{
    let from: usize = if items.len() <= n {
        0
    } else {
        items.len() - n
    };
    let mut out: Vec<String> = Vec::new();
    let mut i: usize = from;
    while i < items.len()
        invariant
            from <= i <= items.len(),
            out.len() == i - from,
            forall|k: int| 0 <= k < out.len() ==> (#[trigger] out@[k])@ == items@[from + k]@,
        decreases items.len() - i,
    {
        out.push(items[i].clone());
        i = i + 1;
    }
    assert(texts(out@) =~= last_of(texts(items@), n as int));
    out
}

/// Whether a text ends with another.
pub open spec fn ends(s: Seq<char>, suffix: Seq<char>) -> bool {
    suffix.len() <= s.len() && s.skip(s.len() - suffix.len()) == suffix
}

/// Whether a text ends with another.
pub fn ends_with(s: &str, suffix: &str) -> (b: bool)
    ensures
        b == ends(s@, suffix@),
{
    let n: usize = s.unicode_len();
    let m: usize = suffix.unicode_len();
    if m > n {
        return false;
    }
    assert(s@.subrange(n - m, n - m + m) =~= s@.skip(n - m));
    stands_at(s, suffix, n - m)
}

/// Adds a copy of a text to a list.
pub(crate) fn put(list: &mut Vec<String>, s: &str)
    ensures
        texts(final(list)@) == texts(old(list)@).push(s@),
{
    list.push(s.to_owned());
    assert(texts(list@) =~= texts(old(list)@).push(s@));
}

/// Adds copies of strings to a list.
pub(crate) fn put_all(list: &mut Vec<String>, more: &Vec<String>)
    ensures
        texts(final(list)@) == texts(old(list)@) + texts(more@),
{
    let ghost was = texts(list@);
    let mut i: usize = 0;
    assert(texts(more@).take(0) =~= Seq::<Seq<char>>::empty());
    assert(was + Seq::<Seq<char>>::empty() =~= was);
    while i < more.len()
        invariant
            i <= more.len(),
            texts(list@) == was + texts(more@).take(i as int),
        decreases more.len() - i,
    {
        put(list, more[i].as_str());
        assert(texts(more@).take(i + 1) =~= texts(more@).take(i as int).push(more@[i as int]@));
        i = i + 1;
    }
    assert(texts(more@).take(i as int) =~= texts(more@));
}

/// `s` with each `from` replaced by `to`, from the left.
pub open spec fn replaced(s: Seq<char>, from: Seq<char>, to: Seq<char>) -> Seq<char>
    decreases s.len(),
{
    if from.len() == 0 || s.len() < from.len() {
        s
    } else if s.take(from.len() as int) == from {
        to + replaced(s.skip(from.len() as int), from, to)
    } else {
        seq![s[0]] + replaced(s.skip(1), from, to)
    }
}

/// A text that does not hold `from` stays as it is; one that begins with it goes on with
/// what follows, after `to`.
pub proof fn only_what_occurs_is_replaced(s: Seq<char>, from: Seq<char>, to: Seq<char>)
    requires
        from.len() > 0,
    ensures
        !occurs(from, s) ==> replaced(s, from, to) == s,
        replaced(from + s, from, to) == to + replaced(s, from, to),
    decreases s.len(),
{
    assert((from + s).take(from.len() as int) =~= from);
    assert((from + s).skip(from.len() as int) =~= s);
    if !occurs(from, s) && s.len() >= from.len() {
        assert(s.subrange(0, from.len() as int) =~= s.take(from.len() as int));
        let rest = s.skip(1);
        if occurs(from, rest) {
            let i = choose|i: int|
                0 <= i <= rest.len() - from.len() && #[trigger] rest.subrange(i, i + from.len())
                    == from;
            assert(s.subrange(i + 1, i + 1 + from.len()) =~= rest.subrange(i, i + from.len()));
        }
        only_what_occurs_is_replaced(rest, from, to);
        assert(seq![s[0]] + rest =~= s);
    }
}

/// `s` with each `from` replaced by `to`, from the left.
pub fn replace(s: &str, from: &str, to: &str) -> (r: String)
    requires
        from@.len() > 0,
    ensures
        r@ == replaced(s@, from@, to@),
{
    let n: usize = s.unicode_len();
    let m: usize = from.unicode_len();
    let mut r: String = String::new();
    let mut i: usize = 0;
    assert(s@.skip(0) =~= s@);
    while n - i >= m
        invariant
            i <= n,
            n == s@.len(),
            m == from@.len(),
            m > 0,
            replaced(s@, from@, to@) == r@ + replaced(s@.skip(i as int), from@, to@),
        decreases n - i,
    {
        let ghost rest = s@.skip(i as int);
        let ghost was = r@;
        let part = s.substring_char(i, i + m);
        assert(part@ =~= rest.take(m as int));
        if same(part, from) {
            r.append(to);
            assert(rest.skip(m as int) =~= s@.skip(i + m));
            assert(was + (to@ + replaced(s@.skip(i + m), from@, to@)) =~= r@ + replaced(
                s@.skip(i + m),
                from@,
                to@,
            ));
            i = i + m;
        } else {
            r.append(s.substring_char(i, i + 1));
            assert(rest.skip(1) =~= s@.skip(i + 1));
            assert(was + (seq![rest[0]] + replaced(s@.skip(i + 1), from@, to@)) =~= r@ + replaced(
                s@.skip(i + 1),
                from@,
                to@,
            ));
            i = i + 1;
        }
    }
    r.append(s.substring_char(i, n));
    assert(s@.subrange(i as int, n as int) =~= s@.skip(i as int));
    r
}

/// The order of dictionaries, by code points.
pub open spec fn sorts_before(a: Seq<char>, b: Seq<char>) -> bool
    decreases a.len(),
{
    if b.len() == 0 {
        false
    } else if a.len() == 0 {
        true
    } else if a[0] != b[0] {
        a[0] < b[0]
    } else {
        sorts_before(a.drop_first(), b.drop_first())
    }
}

pub(crate) proof fn lemma_sorts_one_way(a: Seq<char>, b: Seq<char>)
    ensures
        !(sorts_before(a, b) && sorts_before(b, a)),
        a != b ==> sorts_before(a, b) || sorts_before(b, a),
        a == b ==> !sorts_before(a, b),
    decreases a.len(),
{
    if a.len() > 0 && b.len() > 0 && a[0] == b[0] {
        lemma_sorts_one_way(a.drop_first(), b.drop_first());
        if a.drop_first() == b.drop_first() {
            assert(a =~= seq![a[0]] + a.drop_first());
            assert(b =~= seq![b[0]] + b.drop_first());
        }
    } else if a.len() == 0 && b.len() == 0 {
        assert(a =~= b);
    }
}

pub(crate) proof fn lemma_sorts_through(a: Seq<char>, b: Seq<char>, c: Seq<char>)
    requires
        sorts_before(a, b),
        sorts_before(b, c),
    ensures
        sorts_before(a, c),
    decreases a.len(),
{
    if a.len() > 0 && a[0] == b[0] && b[0] == c[0] {
        lemma_sorts_through(a.drop_first(), b.drop_first(), c.drop_first());
    }
}

/// Whether a text comes before another in the order of dictionaries.
pub fn before(a: &str, b: &str) -> (r: bool)
    ensures
        r == sorts_before(a@, b@),
{
    let n: usize = a.unicode_len();
    let m: usize = b.unicode_len();
    let mut i: usize = 0;
    assert(a@.skip(0) =~= a@);
    assert(b@.skip(0) =~= b@);
    while i < n && i < m
        invariant
            i <= n,
            i <= m,
            n == a@.len(),
            m == b@.len(),
            sorts_before(a@, b@) == sorts_before(a@.skip(i as int), b@.skip(i as int)),
        decreases n - i,
    {
        let x: char = a.get_char(i);
        let y: char = b.get_char(i);
        assert(a@.skip(i as int)[0] == x && b@.skip(i as int)[0] == y);
        assert(a@.skip(i as int).drop_first() =~= a@.skip(i + 1));
        assert(b@.skip(i as int).drop_first() =~= b@.skip(i + 1));
        if x != y {
            return x < y;
        }
        i = i + 1;
    }
    i < m
}

/// The texts ascend, each once.
pub open spec fn sorted(items: Seq<Seq<char>>) -> bool {
    forall|i: int, j: int|
        0 <= i < j < items.len() ==> sorts_before(#[trigger] items[i], #[trigger] items[j])
}

/// Puts a text into a list that ascends, unless it is there.
pub fn insert_sorted(items: &mut Vec<String>, s: &str)
    requires
        sorted(texts(old(items)@)),
    ensures
        sorted(texts(final(items)@)),
        forall|t: Seq<char>| #[trigger]
            texts(final(items)@).contains(t) <==> texts(old(items)@).contains(t) || t == s@,
{
    let ghost was = texts(items@);
    let mut at: usize = 0;
    while at < items.len() && before(items[at].as_str(), s)
        invariant
            at <= items.len(),
            was == texts(items@),
            forall|k: int| 0 <= k < at ==> sorts_before(#[trigger] was[k], s@),
        ensures
            at == items.len() || !sorts_before(was[at as int], s@),
        decreases items.len() - at,
    {
        at = at + 1;
    }
    if at < items.len() && same(items[at].as_str(), s) {
        assert(was[at as int] == s@);
        return;
    }
    items.insert(at, s.to_owned());
    proof {
        let now = texts(items@);
        assert(now =~= was.insert(at as int, s@));
        assert forall|k: int| at <= k < was.len() implies sorts_before(s@, #[trigger] was[k]) by {
            lemma_sorts_one_way(was[at as int], s@);
            if k > at {
                lemma_sorts_through(s@, was[at as int], was[k]);
            }
        }
        assert forall|i: int, j: int| 0 <= i < j < now.len() implies sorts_before(
            #[trigger] now[i],
            #[trigger] now[j],
        ) by {
            let a = if i < at {
                was[i]
            } else if i == at {
                s@
            } else {
                was[i - 1]
            };
            let b = if j < at {
                was[j]
            } else if j == at {
                s@
            } else {
                was[j - 1]
            };
            assert(now[i] == a && now[j] == b);
        }
        assert forall|t: Seq<char>| #[trigger] now.contains(t) <==> was.contains(t) || t == s@ by {
            if was.contains(t) {
                let k = choose|k: int| 0 <= k < was.len() && was[k] == t;
                assert(now[if k < at {
                    k
                } else {
                    k + 1
                }] == t);
            }
            assert(now[at as int] == s@);
            if now.contains(t) && t != s@ {
                let k = choose|k: int| 0 <= k < now.len() && now[k] == t;
                assert(was[if k < at {
                    k
                } else {
                    k - 1
                }] == t);
            }
        }
    }
}

} // verus!

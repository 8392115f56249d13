//! Text helpers over the characters of a string.

use vstd::prelude::*;

verus! {

// ---------------------------------------------------------------------------
// Views
// ---------------------------------------------------------------------------

/// The view of each element of a list.
pub open spec fn deep<T: View>(s: Seq<T>) -> Seq<T::V> {
    Seq::new(s.len(), |i: int| s[i]@)
}

/// The view of an optional value.
pub open spec fn opt<T: View>(o: Option<T>) -> Option<T::V> {
    match o {
        Some(t) => Some(t@),
        None => None,
    }
}

/// Pushing a value onto a list pushes its view.
pub broadcast proof fn lemma_deep_push<T: View>(s: Seq<T>, x: T)
    ensures
        #[trigger] deep(s.push(x)) == deep(s).push(x@),
{
    assert(deep(s.push(x)) =~= deep(s).push(x@));
}

/// The view of a concatenation is the concatenation of the views.
pub broadcast proof fn lemma_deep_add<T: View>(a: Seq<T>, b: Seq<T>)
    ensures
        #[trigger] deep(a + b) == deep(a) + deep(b),
{
    assert(deep(a + b) =~= deep(a) + deep(b));
}

/// Replacing an element replaces its view.
pub broadcast proof fn lemma_deep_update<T: View>(s: Seq<T>, i: int, x: T)
    requires
        0 <= i < s.len(),
    ensures
        #[trigger] deep(s.update(i, x)) == deep(s).update(i, x@),
{
    assert(deep(s.update(i, x)) =~= deep(s).update(i, x@));
}

/// Taking out an element takes out its view.
pub broadcast proof fn lemma_deep_remove<T: View>(s: Seq<T>, i: int)
    requires
        0 <= i < s.len(),
    ensures
        #[trigger] deep(s.remove(i)) == deep(s).remove(i),
{
    assert(deep(s.remove(i)) =~= deep(s).remove(i));
}

/// A copy of a list of strings.
pub fn copy_strings(v: &Vec<String>) -> (r: Vec<String>)
    ensures
        deep(r@) == deep(v@),
{
    broadcast use lemma_deep_push;

    let mut out: Vec<String> = Vec::new();
    let mut i: usize = 0;
    while i < v.len()
        invariant
            i <= v@.len(),
            deep(out@) == deep(v@).take(i as int),
        decreases v@.len() - i,
    {
        out.push(v[i].clone());
        i = i + 1;
        assert(deep(v@).take(i as int) =~= deep(v@).take(i - 1).push(v@[i - 1]@));
    }
    assert(deep(v@).take(i as int) =~= deep(v@));
    out
}

/// A copy of an optional string.
pub fn copy_opt(o: &Option<String>) -> (r: Option<String>)
    ensures
        opt(r) == opt(*o),
        r == *o,
{
    match o {
        Some(s) => Some(s.clone()),
        None => None,
    }
}

// ---------------------------------------------------------------------------
// Building strings
// ---------------------------------------------------------------------------

/// `String::push` appends one character to the end of the string.
pub assume_specification[ String::push ](string: &mut String, ch: char)
    ensures
        final(string)@ == old(string)@.push(ch),
;

/// A string with the same characters as `s`.
pub fn owned(s: &str) -> (r: String)
    ensures
        r@ == s@,
{
    s.to_owned()
}

/// The characters of a string, in order.
pub fn chars_of(s: &str) -> (r: Vec<char>)
    ensures
        r@ == s@,
{
    let mut out: Vec<char> = Vec::new();
    for c in iter: s.chars()
        invariant
            iter.seq() == s@,
            out@ == s@.take(iter.index()),
    {
        out.push(c);
        assert(out@ =~= s@.take(iter.index() + 1));
    }
    assert(out@ =~= s@);
    out
}

/// The string made of the given characters.
pub fn string_of(chars: &[char]) -> (r: String)
    ensures
        r@ == chars@,
{
    let mut out: String = String::new();
    let mut i: usize = 0;
    while i < chars.len()
        invariant
            i <= chars@.len(),
            out@ == chars@.take(i as int),
        decreases chars@.len() - i,
    {
        out.push(chars[i]);
        i = i + 1;
        assert(out@ =~= chars@.take(i as int));
    }
    assert(out@ =~= chars@);
    out
}

/// The string made of the characters from `from` up to `to`.
pub fn string_range(chars: &Vec<char>, from: usize, to: usize) -> (r: String)
    requires
        from <= to <= chars@.len(),
    ensures
        r@ == chars@.subrange(from as int, to as int),
{
    let mut out: String = String::new();
    let mut i: usize = from;
    while i < to
        invariant
            from <= i <= to <= chars@.len(),
            out@ == chars@.subrange(from as int, i as int),
        decreases to - i,
    {
        out.push(chars[i]);
        i = i + 1;
        assert(out@ =~= chars@.subrange(from as int, i as int));
    }
    out
}

/// The concatenation of two strings.
pub fn concat(a: &str, b: &str) -> (r: String)
    ensures
        r@ == a@ + b@,
{
    let mut out: String = owned(a);
    out.append(b);
    out
}

/// The concatenation of three strings.
pub fn concat3(a: &str, b: &str, c: &str) -> (r: String)
    ensures
        r@ == a@ + b@ + c@,
{
    let mut out: String = owned(a);
    out.append(b);
    out.append(c);
    out
}

/// Whether two strings hold the same characters.
pub fn same(a: &str, b: &str) -> (r: bool)
    ensures
        r == (a@ == b@),
{
    let x: Vec<char> = chars_of(a);
    let y: Vec<char> = chars_of(b);
    if x.len() != y.len() {
        return false;
    }
    let mut i: usize = 0;
    while i < x.len()
        invariant
            i <= x@.len(),
            x@.len() == y@.len(),
            x@ == a@,
            y@ == b@,
            forall|k: int| 0 <= k < i ==> x@[k] == y@[k],
        decreases x@.len() - i,
    {
        if x[i] != y[i] {
            assert(x@[i as int] != y@[i as int]);
            return false;
        }
        i = i + 1;
    }
    assert(x@ =~= y@);
    true
}

// ---------------------------------------------------------------------------
// Whitespace
// ---------------------------------------------------------------------------

/// The characters with Unicode's White_Space property.
pub open spec fn is_space(c: char) -> bool {
    let n = c as int;
    ||| 0x9 <= n <= 0xd
    ||| n == 0x20
    ||| n == 0x85
    ||| n == 0xa0
    ||| n == 0x1680
    ||| 0x2000 <= n <= 0x200a
    ||| n == 0x2028
    ||| n == 0x2029
    ||| n == 0x202f
    ||| n == 0x205f
    ||| n == 0x3000
}

/// Decides `is_space`.
pub fn char_is_space(c: char) -> (r: bool)
    ensures
        r == is_space(c),
{
    let n: u32 = c as u32;
    (0x9 <= n && n <= 0xd) || n == 0x20 || n == 0x85 || n == 0xa0 || n == 0x1680 || (0x2000 <= n
        && n <= 0x200a) || n == 0x2028 || n == 0x2029 || n == 0x202f || n == 0x205f || n == 0x3000
}

/// Whether every character is whitespace.
pub open spec fn is_blank(s: Seq<char>) -> bool {
    forall|i: int| 0 <= i < s.len() ==> is_space(#[trigger] s[i])
}

/// How many characters of whitespace `s` begins with.
pub open spec fn leading_space(s: Seq<char>) -> nat
    decreases s.len(),
{
    if s.len() > 0 && is_space(s[0]) {
        1 + leading_space(s.skip(1))
    } else {
        0
    }
}

/// The index just past the last character of `s` that is not whitespace.
pub open spec fn trimmed_len(s: Seq<char>) -> nat
    decreases s.len(),
{
    if s.len() > 0 && is_space(s.last()) {
        trimmed_len(s.drop_last())
    } else {
        s.len()
    }
}

/// `s` without whitespace at its end.
pub open spec fn trim_end_spec(s: Seq<char>) -> Seq<char> {
    s.take(trimmed_len(s) as int)
}

/// `s` without whitespace at its beginning.
pub open spec fn trim_start_spec(s: Seq<char>) -> Seq<char> {
    s.skip(leading_space(s) as int)
}

/// `s` without whitespace at either end.
pub open spec fn trim_spec(s: Seq<char>) -> Seq<char> {
    trim_start_spec(trim_end_spec(s))
}

pub proof fn lemma_leading_space_bound(s: Seq<char>)
    ensures
        leading_space(s) <= s.len(),
        forall|i: int| 0 <= i < leading_space(s) ==> is_space(#[trigger] s[i]),
        leading_space(s) < s.len() ==> !is_space(s[leading_space(s) as int]),
    decreases s.len(),
{
    if s.len() > 0 && is_space(s[0]) {
        lemma_leading_space_bound(s.skip(1));
        assert forall|i: int| 0 <= i < leading_space(s) implies is_space(#[trigger] s[i]) by {
            if i > 0 {
                assert(s[i] == s.skip(1)[i - 1]);
            }
        }
        if leading_space(s) < s.len() {
            assert(s[leading_space(s) as int] == s.skip(1)[leading_space(s) - 1]);
        }
    }
}

pub proof fn lemma_trimmed_len_bound(s: Seq<char>)
    ensures
        trimmed_len(s) <= s.len(),
        forall|i: int| trimmed_len(s) <= i < s.len() ==> is_space(#[trigger] s[i]),
        trimmed_len(s) > 0 ==> !is_space(s[trimmed_len(s) - 1]),
    decreases s.len(),
{
    if s.len() > 0 && is_space(s.last()) {
        lemma_trimmed_len_bound(s.drop_last());
        assert forall|i: int| trimmed_len(s) <= i < s.len() implies is_space(#[trigger] s[i]) by {
            if i < s.len() - 1 {
                assert(s[i] == s.drop_last()[i]);
            }
        }
    }
}

proof fn lemma_leading_space_at(s: Seq<char>, n: nat)
    requires
        n <= s.len(),
        forall|i: int| 0 <= i < n ==> is_space(#[trigger] s[i]),
        n < s.len() ==> !is_space(s[n as int]),
    ensures
        leading_space(s) == n,
{
    lemma_leading_space_bound(s);
    let m = leading_space(s);
    if m < n {
        assert(is_space(s[m as int]));
    } else if n < m {
        assert(is_space(s[n as int]));
    }
}

proof fn lemma_trimmed_len_at(s: Seq<char>, n: nat)
    requires
        n <= s.len(),
        forall|i: int| n <= i < s.len() ==> is_space(#[trigger] s[i]),
        n > 0 ==> !is_space(s[n - 1]),
    ensures
        trimmed_len(s) == n,
{
    lemma_trimmed_len_bound(s);
    let m = trimmed_len(s);
    if m < n {
        assert(is_space(s[n - 1]));
    } else if n < m {
        assert(is_space(s[m - 1]));
    }
}

/// `s` without whitespace at either end.
pub fn trim(s: &str) -> (r: String)
    ensures
        r@ == trim_spec(s@),
{
    let chars: Vec<char> = chars_of(s);
    let mut end: usize = chars.len();
    while end > 0 && char_is_space(chars[end - 1])
        invariant
            end <= chars@.len(),
            forall|i: int| end <= i < chars@.len() ==> is_space(#[trigger] chars@[i]),
        decreases end,
    {
        end = end - 1;
    }
    proof {
        lemma_trimmed_len_at(s@, end as nat);
    }
    let ghost t = s@.take(end as int);
    let mut start: usize = 0;
    while start < end && char_is_space(chars[start])
        invariant
            start <= end <= chars@.len(),
            forall|i: int| 0 <= i < start ==> is_space(#[trigger] chars@[i]),
        decreases end - start,
    {
        start = start + 1;
    }
    proof {
        assert forall|i: int| 0 <= i < start implies is_space(#[trigger] t[i]) by {
            assert(t[i] == chars@[i]);
        }
        if start < end {
            assert(t[start as int] == chars@[start as int]);
        }
        lemma_leading_space_at(t, start as nat);
        assert(t.skip(start as int) =~= chars@.subrange(start as int, end as int));
    }
    string_range(&chars, start, end)
}

/// Whether trimming `s` leaves nothing.
pub fn is_trimmed_empty(s: &str) -> (r: bool)
    ensures
        r == (trim_spec(s@).len() == 0),
{
    let t: String = trim(s);
    t.as_str().is_empty()
}

/// Trimming leaves nothing exactly when every character is whitespace.
pub proof fn lemma_trim_empty_iff_blank(s: Seq<char>)
    ensures
        trim_spec(s).len() == 0 <==> is_blank(s),
{
    lemma_trimmed_len_bound(s);
    let t = trim_end_spec(s);
    lemma_leading_space_bound(t);
    let n = trimmed_len(s);
    if is_blank(s) {
        if n > 0 {
            assert(is_space(s[n - 1]));
        }
    } else {
        let i = choose|i: int| 0 <= i < s.len() && !is_space(#[trigger] s[i]);
        assert(i < n);
        assert(!is_space(s[n - 1]));
        assert(t[n - 1] == s[n - 1]);
        assert(leading_space(t) < t.len()) by {
            if leading_space(t) == t.len() {
                assert(is_space(t[n - 1]));
            }
        }
    }
}

// ---------------------------------------------------------------------------
// Prefixes
// ---------------------------------------------------------------------------

/// Whether `s` begins with `prefix`.
pub open spec fn has_prefix(s: Seq<char>, prefix: Seq<char>) -> bool {
    prefix.len() <= s.len() && s.take(prefix.len() as int) == prefix
}

/// What follows `prefix`, or `None` where `s` does not begin with it.
pub fn strip_prefix(s: &str, prefix: &str) -> (r: Option<String>)
    ensures
        r is Some <==> has_prefix(s@, prefix@),
        r matches Some(t) ==> t@ == s@.skip(prefix@.len() as int),
{
    let chars: Vec<char> = chars_of(s);
    let p: Vec<char> = chars_of(prefix);
    if p.len() > chars.len() {
        return None;
    }
    let mut i: usize = 0;
    while i < p.len()
        invariant
            i <= p@.len() <= chars@.len(),
            p@ == prefix@,
            chars@ == s@,
            forall|k: int| 0 <= k < i ==> chars@[k] == p@[k],
        decreases p@.len() - i,
    {
        if chars[i] != p[i] {
            assert(s@.take(prefix@.len() as int)[i as int] != prefix@[i as int]);
            return None;
        }
        i = i + 1;
    }
    assert(s@.take(prefix@.len() as int) =~= prefix@);
    let r: String = string_range(&chars, p.len(), chars.len());
    assert(r@ =~= s@.skip(prefix@.len() as int));
    Some(r)
}

// ---------------------------------------------------------------------------
// Decimal numbers
// ---------------------------------------------------------------------------

/// The decimal digit for `n`, which is below ten.
pub open spec fn digit(n: nat) -> char {
    (48 + n) as char
}

/// The decimal digits of `n`, without leading zeros.
pub open spec fn decimal(n: nat) -> Seq<char>
    decreases n,
{
    if n < 10 {
        seq![digit(n)]
    } else {
        decimal(n / 10).push(digit(n % 10))
    }
}

/// The decimal digits of `n`, with a minus sign in front where it is negative.
pub open spec fn signed(n: int) -> Seq<char> {
    if n < 0 {
        seq!['-'] + decimal((-n) as nat)
    } else {
        decimal(n as nat)
    }
}

/// The decimal digits of `n`, filled with zeros in front up to `width`.
pub open spec fn padded(n: nat, width: nat) -> Seq<char> {
    let d = decimal(n);
    if d.len() < width {
        Seq::new((width - d.len()) as nat, |i: int| '0') + d
    } else {
        d
    }
}

fn digit_char(n: u64) -> (r: char)
    requires
        n < 10,
    ensures
        r == digit(n as nat),
{
    match n {
        0 => '0',
        1 => '1',
        2 => '2',
        3 => '3',
        4 => '4',
        5 => '5',
        6 => '6',
        7 => '7',
        8 => '8',
        _ => '9',
    }
}

/// The decimal digits of `n`.
pub fn decimal_u64(n: u64) -> (r: String)
    ensures
        r@ == decimal(n as nat),
    decreases n,
{
    let mut out: String = if n < 10 {
        String::new()
    } else {
        decimal_u64(n / 10)
    };
    out.push(digit_char(n % 10));
    assert(out@ =~= decimal(n as nat));
    out
}

/// The decimal digits of `n`, with a minus sign in front where it is negative.
pub fn decimal_i64(n: i64) -> (r: String)
    ensures
        r@ == signed(n as int),
{
    if n < 0 {
        let magnitude: u64 = (-(n + 1)) as u64 + 1;
        let mut out: String = String::new();
        out.push('-');
        let digits: String = decimal_u64(magnitude);
        out.append(digits.as_str());
        assert(out@ =~= signed(n as int));
        out
    } else {
        decimal_u64(n as u64)
    }
}

/// The decimal digits of `n`, filled with zeros in front up to `width`.
pub fn padded_u64(n: u64, width: usize) -> (r: String)
    ensures
        r@ == padded(n as nat, width as nat),
{
    let digits: String = decimal_u64(n);
    let len: usize = chars_of(digits.as_str()).len();
    let mut out: String = String::new();
    let mut i: usize = len;
    while i < width
        invariant
            len == decimal(n as nat).len(),
            i == len || i <= width,
            i >= len,
            out@ == Seq::new((i - len) as nat, |k: int| '0'),
        decreases width - i,
    {
        out.push('0');
        i = i + 1;
        assert(out@ =~= Seq::new((i - len) as nat, |k: int| '0'));
    }
    out.append(digits.as_str());
    assert(out@ =~= padded(n as nat, width as nat));
    out
}

/// Whether every character is a decimal digit, and there is at least one.
pub open spec fn is_digits(s: Seq<char>) -> bool {
    s.len() > 0 && forall|i: int| 0 <= i < s.len() ==> '0' <= #[trigger] s[i] <= '9'
}

/// The number that a sequence of decimal digits stands for.
pub open spec fn digits_value(s: Seq<char>) -> nat
    decreases s.len(),
{
    if s.len() == 0 {
        0
    } else {
        digits_value(s.drop_last()) * 10 + (s.last() as nat - 48) as nat
    }
}

/// The number that an optional plus sign and decimal digits stand for.
pub open spec fn unsigned_value(s: Seq<char>) -> Option<nat> {
    let body = if s.len() > 0 && s[0] == '+' {
        s.skip(1)
    } else {
        s
    };
    if is_digits(body) {
        Some(digits_value(body))
    } else {
        None
    }
}

/// The unsigned number that `s` stands for, where it is one and is at most `max`.
pub open spec fn parsed(s: Seq<char>, max: nat) -> Option<nat> {
    match unsigned_value(s) {
        Some(v) => if v <= max {
            Some(v)
        } else {
            None
        },
        None => None,
    }
}

/// Reads an unsigned 32-bit number: an optional plus sign and decimal digits.
pub fn parse_u32(s: &str) -> (r: Option<u32>)
    ensures
        parsed(s@, u32::MAX as nat) == (match r {
            Some(v) => Some(v as nat),
            None => None,
        }),
{
    let chars: Vec<char> = chars_of(s);
    let start: usize = if chars.len() > 0 && chars[0] == '+' {
        1
    } else {
        0
    };
    let ghost body = s@.skip(start as int);
    assert(start == 0 ==> body =~= s@);
    if start == chars.len() {
        return None;
    }
    let mut value: u64 = 0;
    let mut over: bool = false;
    let mut i: usize = start;
    while i < chars.len()
        invariant
            start <= i <= chars@.len(),
            chars@ == s@,
            start == (if s@.len() > 0 && s@[0] == '+' {
                1int
            } else {
                0int
            }),
            start == 0 ==> body == s@,
            body == s@.skip(start as int),
            body.len() == chars@.len() - start,
            forall|k: int| 0 <= k < i - start ==> '0' <= #[trigger] body[k] <= '9',
            !over ==> value == digits_value(body.take(i - start)) && value <= u32::MAX,
            over ==> digits_value(body.take(i - start)) > u32::MAX,
        decreases chars@.len() - i,
    {
        let c: char = chars[i];
        assert(body[i - start] == c);
        if c < '0' || c > '9' {
            assert(!is_digits(body));
            return None;
        }
        proof {
            let t = body.take(i + 1 - start);
            assert(t.drop_last() =~= body.take(i - start));
            assert(t.last() == c);
            let before = digits_value(body.take(i - start));
            assert(digits_value(t) == before * 10 + (c as nat - 48) as nat);
        }
        if !over {
            value = value * 10 + (c as u64 - 48);
            if value > u32::MAX as u64 {
                over = true;
            }
        }
        i = i + 1;
    }
    assert(body.take(i - start) =~= body);
    assert(is_digits(body));
    if over {
        None
    } else {
        Some(value as u32)
    }
}

/// Reading back the digits of a number gives the number.
pub proof fn lemma_parse_decimal(n: nat)
    ensures
        is_digits(decimal(n)),
        digits_value(decimal(n)) == n,
        unsigned_value(decimal(n)) == Some(n),
    decreases n,
{
    if n < 10 {
        assert(decimal(n).drop_last() =~= Seq::<char>::empty());
        assert(digits_value(decimal(n).drop_last()) == 0);
    } else {
        lemma_parse_decimal(n / 10);
        assert(decimal(n).drop_last() =~= decimal(n / 10));
    }
    assert(decimal(n)[0] != '+');
}

// ---------------------------------------------------------------------------
// Order
// ---------------------------------------------------------------------------

/// Whether `a` comes before `b` in the order of their characters.
pub open spec fn before(a: Seq<char>, b: Seq<char>) -> bool
    decreases a.len(),
{
    if b.len() == 0 {
        false
    } else if a.len() == 0 {
        true
    } else if a[0] != b[0] {
        a[0] < b[0]
    } else {
        before(a.skip(1), b.skip(1))
    }
}

/// Two strings are in one order, or the other, or equal; never two of these.
pub proof fn lemma_before_total(a: Seq<char>, b: Seq<char>)
    ensures
        before(a, b) || before(b, a) || a == b,
        !(before(a, b) && before(b, a)),
        !before(a, a),
    decreases a.len(),
{
    if a.len() > 0 {
        lemma_before_total(a.skip(1), a.skip(1));
    }
    if a.len() > 0 && b.len() > 0 && a[0] == b[0] {
        lemma_before_total(a.skip(1), b.skip(1));
        if a.skip(1) == b.skip(1) {
            assert forall|i: int| 0 <= i < a.len() implies a[i] == b[i] by {
                if i > 0 {
                    assert(a[i] == a.skip(1)[i - 1]);
                    assert(b[i] == b.skip(1)[i - 1]);
                }
            }
            assert(a.len() == a.skip(1).len() + 1);
            assert(b.len() == b.skip(1).len() + 1);
            assert(a =~= b);
        }
    } else if a.len() == 0 && b.len() == 0 {
        assert(a =~= b);
    }
}

/// The order of strings is transitive.
pub proof fn lemma_before_transitive(a: Seq<char>, b: Seq<char>, c: Seq<char>)
    requires
        before(a, b),
        before(b, c),
    ensures
        before(a, c),
    decreases a.len(),
{
    if a.len() > 0 && a[0] == b[0] && b[0] == c[0] {
        lemma_before_transitive(a.skip(1), b.skip(1), c.skip(1));
    }
}

/// Decides whether `a` comes before `b`.
pub fn is_before(a: &str, b: &str) -> (r: bool)
    ensures
        r == before(a@, b@),
{
    let x: Vec<char> = chars_of(a);
    let y: Vec<char> = chars_of(b);
    let mut i: usize = 0;
    proof {
        assert(x@.skip(0) =~= a@);
        assert(y@.skip(0) =~= b@);
    }
    loop
        invariant
            i <= x@.len(),
            i <= y@.len(),
            before(a@, b@) == before(x@.skip(i as int), y@.skip(i as int)),
        decreases x@.len() - i,
    {
        if i == y.len() {
            return false;
        }
        if i == x.len() {
            return true;
        }
        assert(x@.skip(i as int)[0] == x@[i as int]);
        assert(y@.skip(i as int)[0] == y@[i as int]);
        if x[i] != y[i] {
            return x[i] < y[i];
        }
        proof {
            assert(x@.skip(i as int).skip(1) =~= x@.skip(i + 1));
            assert(y@.skip(i as int).skip(1) =~= y@.skip(i + 1));
        }
        i = i + 1;
    }
}

// ---------------------------------------------------------------------------
// Splitting and joining
// ---------------------------------------------------------------------------

/// The pieces of `s` between the separators; one empty piece where `s` is empty.
pub open spec fn split_spec(s: Seq<char>, sep: char) -> Seq<Seq<char>>
    decreases s.len(),
{
    if s.len() == 0 {
        seq![Seq::<char>::empty()]
    } else {
        let p = split_spec(s.drop_last(), sep);
        if s.last() == sep {
            p.push(Seq::<char>::empty())
        } else {
            p.drop_last().push(p.last().push(s.last()))
        }
    }
}

/// The pieces of `s` that whitespace separates, none of them empty.
pub open spec fn words_spec(s: Seq<char>) -> Seq<Seq<char>>
    decreases s.len(),
{
    if s.len() == 0 {
        Seq::<Seq<char>>::empty()
    } else {
        let w = words_spec(s.drop_last());
        if is_space(s.last()) {
            w
        } else if s.len() >= 2 && !is_space(s[s.len() - 2]) {
            w.drop_last().push(w.last().push(s.last()))
        } else {
            w.push(seq![s.last()])
        }
    }
}

/// The lines of `s`: a line ends at a newline, with an optional carriage
/// return in front of it, or at the end of the text.
pub open spec fn lines_spec(s: Seq<char>) -> Seq<Seq<char>> {
    let p = split_spec(s, '\n');
    let n = if p.last().len() == 0 {
        (p.len() - 1) as nat
    } else {
        p.len()
    };
    Seq::new(
        n,
        |i: int|
            if i < p.len() - 1 {
                without_return(p[i])
            } else {
                p[i]
            },
    )
}

/// `s` without one carriage return at its end.
pub open spec fn without_return(s: Seq<char>) -> Seq<char> {
    if s.len() > 0 && s.last() == '\r' {
        s.drop_last()
    } else {
        s
    }
}

/// The first `n` pieces, each without one carriage return at its end.
spec fn without_returns(p: Seq<Seq<char>>, n: nat) -> Seq<Seq<char>> {
    Seq::new(n, |i: int| without_return(p[i]))
}

/// The pieces with `sep` between each two.
pub open spec fn join_spec(parts: Seq<Seq<char>>, sep: Seq<char>) -> Seq<char>
    decreases parts.len(),
{
    if parts.len() == 0 {
        Seq::<char>::empty()
    } else if parts.len() == 1 {
        parts[0]
    } else {
        join_spec(parts.drop_last(), sep) + sep + parts.last()
    }
}

/// Each piece without whitespace at its ends, those left empty taken out.
pub open spec fn trimmed_pieces(p: Seq<Seq<char>>) -> Seq<Seq<char>>
    decreases p.len(),
{
    if p.len() == 0 {
        Seq::<Seq<char>>::empty()
    } else {
        let k = trimmed_pieces(p.drop_last());
        let t = trim_spec(p.last());
        if t.len() == 0 {
            k
        } else {
            k.push(t)
        }
    }
}

pub proof fn lemma_split_nonempty(s: Seq<char>, sep: char)
    ensures
        split_spec(s, sep).len() > 0,
    decreases s.len(),
{
    if s.len() > 0 {
        lemma_split_nonempty(s.drop_last(), sep);
    }
}

/// The pieces of `s` between the separators.
pub fn split(s: &str, sep: char) -> (r: Vec<String>)
    ensures
        deep(r@) == split_spec(s@, sep),
        r@.len() > 0,
{
    broadcast use lemma_deep_push;

    let chars: Vec<char> = chars_of(s);
    let mut out: Vec<String> = Vec::new();
    let mut current: String = String::new();
    let mut i: usize = 0;
    assert(chars@.take(0) =~= Seq::<char>::empty());
    assert(deep(out@).push(current@) =~= split_spec(chars@.take(0), sep));
    while i < chars.len()
        invariant
            i <= chars@.len(),
            chars@ == s@,
            deep(out@).push(current@) == split_spec(s@.take(i as int), sep),
        decreases chars@.len() - i,
    {
        let c: char = chars[i];
        let ghost before_out = deep(out@);
        let ghost before_current = current@;
        let ghost p = split_spec(s@.take(i as int), sep);
        assert(p.drop_last() =~= before_out);
        assert(p.last() == before_current);
        assert(s@.take(i + 1).drop_last() =~= s@.take(i as int));
        assert(s@.take(i + 1).last() == c);
        if c == sep {
            out.push(current);
            current = String::new();
        } else {
            current.push(c);
        }
        i = i + 1;
        assert(deep(out@).push(current@) =~= split_spec(s@.take(i as int), sep));
    }
    assert(s@.take(i as int) =~= s@);
    out.push(current);
    out
}

proof fn lemma_words_end(s: Seq<char>)
    ensures
        s.len() > 0 && !is_space(s.last()) ==> words_spec(s).len() > 0,
    decreases s.len(),
{
    if s.len() >= 2 && !is_space(s.last()) && !is_space(s[s.len() - 2]) {
        assert(s.drop_last().last() == s[s.len() - 2]);
        lemma_words_end(s.drop_last());
    }
}

/// The pieces of `s` that whitespace separates.
pub fn words(s: &str) -> (r: Vec<String>)
    ensures
        deep(r@) == words_spec(s@),
{
    broadcast use lemma_deep_push;

    let chars: Vec<char> = chars_of(s);
    let mut out: Vec<String> = Vec::new();
    let mut current: String = String::new();
    let mut i: usize = 0;
    assert(deep(out@) =~= words_spec(s@.take(0)));
    while i < chars.len()
        invariant
            i <= chars@.len(),
            chars@ == s@,
            current@.len() > 0 <==> (i > 0 && !is_space(s@[i - 1])),
            words_spec(s@.take(i as int)) == (if current@.len() > 0 {
                deep(out@).push(current@)
            } else {
                deep(out@)
            }),
        decreases chars@.len() - i,
    {
        let c: char = chars[i];
        let ghost before_out = deep(out@);
        let ghost before_current = current@;
        let ghost t = s@.take(i + 1);
        assert(t.drop_last() =~= s@.take(i as int));
        assert(t.last() == c);
        if i > 0 {
            assert(t[t.len() - 2] == s@[i - 1]);
        }
        if char_is_space(c) {
            if !current.as_str().is_empty() {
                out.push(current);
                current = String::new();
            }
        } else {
            current.push(c);
            proof {
                if before_current.len() > 0 {
                    let w = words_spec(t.drop_last());
                    assert(w.drop_last() =~= before_out);
                    assert(w.last() == before_current);
                } else {
                    assert(current@ =~= seq![c]);
                }
            }
        }
        i = i + 1;
        assert(words_spec(t) =~= (if current@.len() > 0 {
            deep(out@).push(current@)
        } else {
            deep(out@)
        }));
    }
    assert(s@.take(i as int) =~= s@);
    if !current.as_str().is_empty() {
        out.push(current);
    }
    out
}

/// The lines of `s`.
pub fn lines(s: &str) -> (r: Vec<String>)
    ensures
        deep(r@) == lines_spec(s@),
{
    broadcast use lemma_deep_push;

    let pieces: Vec<String> = split(s, '\n');
    let ghost p = split_spec(s@, '\n');
    let mut out: Vec<String> = Vec::new();
    let mut i: usize = 0;
    while i < pieces.len()
        invariant
            i <= pieces@.len(),
            p == split_spec(s@, '\n'),
            deep(pieces@) == p,
            i < p.len() ==> deep(out@) == without_returns(p, i as nat),
            i == p.len() ==> deep(out@) == lines_spec(s@),
            p.len() > 0,
        decreases pieces@.len() - i,
    {
        assert(p[i as int] == pieces@[i as int]@);
        let chars: Vec<char> = chars_of(pieces[i].as_str());
        let ghost before_out = deep(out@);
        if i + 1 < pieces.len() {
            let mut end: usize = chars.len();
            if end > 0 && chars[end - 1] == '\r' {
                end = end - 1;
            }
            let line: String = string_range(&chars, 0, end);
            let ghost line_view = line@;
            assert(line@ =~= without_return(p[i as int]));
            out.push(line);
            assert(deep(out@) == before_out.push(line_view));
            assert(deep(out@) =~= without_returns(p, (i + 1) as nat));
        } else {
            if chars.len() > 0 {
                let line: String = pieces[i].clone();
                let ghost line_view = line@;
                out.push(line);
                assert(deep(out@) == before_out.push(line_view));
            }
            assert(p.last() == chars@);
            assert(deep(out@).len() == lines_spec(s@).len());
            assert(deep(out@) =~= lines_spec(s@));
        }
        i = i + 1;
    }
    out
}

/// The strings with `sep` between each two.
pub fn join(parts: &Vec<String>, sep: &str) -> (r: String)
    ensures
        r@ == join_spec(deep(parts@), sep@),
{
    let mut out: String = String::new();
    let mut i: usize = 0;
    assert(deep(parts@).take(0) =~= Seq::<Seq<char>>::empty());
    while i < parts.len()
        invariant
            i <= parts@.len(),
            out@ == join_spec(deep(parts@).take(i as int), sep@),
        decreases parts@.len() - i,
    {
        let ghost t = deep(parts@).take(i + 1);
        assert(t.drop_last() =~= deep(parts@).take(i as int));
        assert(t.last() == parts@[i as int]@);
        if i > 0 {
            out.append(sep);
        }
        out.append(parts[i].as_str());
        i = i + 1;
        assert(out@ =~= join_spec(t, sep@));
    }
    assert(deep(parts@).take(i as int) =~= deep(parts@));
    out
}

/// The pieces of `s` between the separators, trimmed, those left empty taken out.
pub fn split_trimmed(s: &str, sep: char) -> (r: Vec<String>)
    ensures
        deep(r@) == trimmed_pieces(split_spec(s@, sep)),
{
    broadcast use lemma_deep_push;

    let pieces: Vec<String> = split(s, sep);
    let ghost p = deep(pieces@);
    let mut out: Vec<String> = Vec::new();
    let mut i: usize = 0;
    assert(deep(out@) =~= trimmed_pieces(p.take(0)));
    while i < pieces.len()
        invariant
            i <= pieces@.len(),
            p == deep(pieces@),
            deep(out@) == trimmed_pieces(p.take(i as int)),
        decreases pieces@.len() - i,
    {
        let t: String = trim(pieces[i].as_str());
        assert(p.take(i + 1).drop_last() =~= p.take(i as int));
        assert(p.take(i + 1).last() == pieces@[i as int]@);
        if !t.as_str().is_empty() {
            out.push(t);
        }
        i = i + 1;
    }
    assert(p.take(i as int) =~= p);
    out
}

// ---------------------------------------------------------------------------
// Splitting undoes joining
// ---------------------------------------------------------------------------

/// Whether a text begins and ends with something other than whitespace.
pub open spec fn is_plain(s: Seq<char>) -> bool {
    s.len() > 0 && !is_space(s[0]) && !is_space(s.last())
}

/// Trimming changes nothing of a text without whitespace at its ends.
pub proof fn lemma_trim_plain(s: Seq<char>)
    requires
        s.len() == 0 || is_plain(s),
    ensures
        trim_spec(s) == s,
{
    lemma_trimmed_len_at(s, s.len());
    assert(trim_end_spec(s) =~= s);
    lemma_leading_space_at(s, 0);
    assert(trim_start_spec(s) =~= s);
}

proof fn lemma_split_tail(a: Seq<char>, sep: char, b: Seq<char>)
    requires
        !b.contains(sep),
    ensures
        split_spec(a + seq![sep] + b, sep) == split_spec(a, sep).push(b),
    decreases b.len(),
{
    let s = a + seq![sep] + b;
    if b.len() == 0 {
        assert(s =~= a.push(sep));
        assert(s.drop_last() =~= a);
        assert(b =~= Seq::<char>::empty());
    } else {
        let rest = b.drop_last();
        assert(!rest.contains(sep)) by {
            if rest.contains(sep) {
                let i = choose|i: int| 0 <= i < rest.len() && rest[i] == sep;
                assert(b[i] == sep);
            }
        }
        lemma_split_tail(a, sep, rest);
        assert(s.drop_last() =~= a + seq![sep] + rest);
        assert(s.last() == b.last());
        assert(b.last() != sep) by {
            assert(b[b.len() - 1] == b.last());
        }
        let p = split_spec(a, sep);
        assert(p.push(rest).drop_last() =~= p);
        assert(rest.push(b.last()) =~= b);
    }
}

proof fn lemma_split_one(b: Seq<char>, sep: char)
    requires
        !b.contains(sep),
    ensures
        split_spec(b, sep) == seq![b],
    decreases b.len(),
{
    if b.len() == 0 {
        assert(b =~= Seq::<char>::empty());
    } else {
        let rest = b.drop_last();
        assert(!rest.contains(sep)) by {
            if rest.contains(sep) {
                let i = choose|i: int| 0 <= i < rest.len() && rest[i] == sep;
                assert(b[i] == sep);
            }
        }
        lemma_split_one(rest, sep);
        assert(b[b.len() - 1] != sep);
        assert(seq![rest].drop_last() =~= Seq::<Seq<char>>::empty());
        assert(rest.push(b.last()) =~= b);
        assert(split_spec(b, sep) =~= seq![b]);
    }
}

/// Splitting what was joined gives the pieces back, where none holds the
/// separator.
pub proof fn lemma_split_join(parts: Seq<Seq<char>>, sep: char)
    requires
        parts.len() > 0,
        forall|i: int| 0 <= i < parts.len() ==> !(#[trigger] parts[i]).contains(sep),
    ensures
        split_spec(join_spec(parts, seq![sep]), sep) == parts,
    decreases parts.len(),
{
    if parts.len() == 1 {
        assert(!parts[0].contains(sep));
        lemma_split_one(parts[0], sep);
        assert(parts =~= seq![parts[0]]);
    } else {
        let rest = parts.drop_last();
        assert forall|i: int| 0 <= i < rest.len() implies !(#[trigger] rest[i]).contains(sep) by {
            assert(!parts[i].contains(sep));
        }
        lemma_split_join(rest, sep);
        assert(!parts[parts.len() - 1].contains(sep));
        lemma_split_tail(join_spec(rest, seq![sep]), sep, parts.last());
        assert(rest.push(parts.last()) =~= parts);
    }
}

/// Whether no character is whitespace, and there is at least one.
pub open spec fn is_word(s: Seq<char>) -> bool {
    s.len() > 0 && forall|i: int| 0 <= i < s.len() ==> !is_space(#[trigger] s[i])
}

proof fn lemma_words_tail(a: Seq<char>, gap: char, b: Seq<char>)
    requires
        is_space(gap),
        is_word(b),
    ensures
        words_spec(a + seq![gap] + b) == words_spec(a).push(b),
    decreases b.len(),
{
    let s = a + seq![gap] + b;
    let c = b.last();
    assert(c == b[b.len() - 1]);
    assert(!is_space(c));
    assert(s.last() == c);
    if b.len() == 1 {
        assert(s.drop_last() =~= a.push(gap));
        assert(a.push(gap).drop_last() =~= a);
        assert(words_spec(a.push(gap)) == words_spec(a));
        assert(s[s.len() - 2] == gap);
        assert(b =~= seq![c]);
    } else {
        let rest = b.drop_last();
        assert(is_word(rest)) by {
            assert forall|i: int| 0 <= i < rest.len() implies !is_space(#[trigger] rest[i]) by {
                assert(!is_space(b[i]));
            }
        }
        lemma_words_tail(a, gap, rest);
        assert(s.drop_last() =~= a + seq![gap] + rest);
        assert(s[s.len() - 2] == b[b.len() - 2]);
        assert(!is_space(b[b.len() - 2]));
        let w = words_spec(a);
        assert(w.push(rest).drop_last() =~= w);
        assert(rest.push(c) =~= b);
    }
}

proof fn lemma_words_one(b: Seq<char>)
    requires
        is_word(b),
    ensures
        words_spec(b) == seq![b],
    decreases b.len(),
{
    let c = b.last();
    assert(c == b[b.len() - 1]);
    if b.len() == 1 {
        assert(b.drop_last() =~= Seq::<char>::empty());
        assert(words_spec(b.drop_last()) =~= Seq::<Seq<char>>::empty());
        assert(b =~= seq![c]);
        assert(words_spec(b) =~= seq![b]);
    } else {
        let rest = b.drop_last();
        assert(is_word(rest)) by {
            assert forall|i: int| 0 <= i < rest.len() implies !is_space(#[trigger] rest[i]) by {
                assert(!is_space(b[i]));
            }
        }
        lemma_words_one(rest);
        assert(!is_space(b[b.len() - 2]));
        assert(seq![rest].drop_last() =~= Seq::<Seq<char>>::empty());
        assert(rest.push(c) =~= b);
        assert(words_spec(b) =~= seq![b]);
    }
}

/// The words of what was joined with whitespace are the words.
pub proof fn lemma_words_join(parts: Seq<Seq<char>>, gap: char)
    requires
        is_space(gap),
        forall|i: int| 0 <= i < parts.len() ==> is_word(#[trigger] parts[i]),
    ensures
        words_spec(join_spec(parts, seq![gap])) == parts,
    decreases parts.len(),
{
    if parts.len() == 0 {
        assert(parts =~= Seq::<Seq<char>>::empty());
    } else if parts.len() == 1 {
        assert(is_word(parts[0]));
        lemma_words_one(parts[0]);
        assert(parts =~= seq![parts[0]]);
    } else {
        let rest = parts.drop_last();
        assert forall|i: int| 0 <= i < rest.len() implies is_word(#[trigger] rest[i]) by {
            assert(is_word(parts[i]));
        }
        lemma_words_join(rest, gap);
        assert(is_word(parts[parts.len() - 1]));
        lemma_words_tail(join_spec(rest, seq![gap]), gap, parts.last());
        assert(rest.push(parts.last()) =~= parts);
    }
}

/// What is joined from texts without whitespace at their ends has none at its
/// own.
pub proof fn lemma_join_plain(parts: Seq<Seq<char>>, sep: Seq<char>)
    requires
        parts.len() > 0,
        forall|i: int| 0 <= i < parts.len() ==> is_plain(#[trigger] parts[i]),
    ensures
        is_plain(join_spec(parts, sep)),
    decreases parts.len(),
{
    if parts.len() == 1 {
        assert(is_plain(parts[0]));
    } else {
        let rest = parts.drop_last();
        assert forall|i: int| 0 <= i < rest.len() implies is_plain(#[trigger] rest[i]) by {
            assert(is_plain(parts[i]));
        }
        lemma_join_plain(rest, sep);
        assert(is_plain(parts[parts.len() - 1]));
        let j = join_spec(rest, sep) + sep + parts.last();
        assert(j[0] == join_spec(rest, sep)[0]);
        assert(j.last() == parts.last().last());
    }
}

/// Trimming changes nothing of pieces without whitespace at their ends.
pub proof fn lemma_trimmed_pieces_plain(parts: Seq<Seq<char>>)
    requires
        forall|i: int| 0 <= i < parts.len() ==> is_plain(#[trigger] parts[i]),
    ensures
        trimmed_pieces(parts) == parts,
    decreases parts.len(),
{
    if parts.len() > 0 {
        let rest = parts.drop_last();
        assert forall|i: int| 0 <= i < rest.len() implies is_plain(#[trigger] rest[i]) by {
            assert(is_plain(parts[i]));
        }
        lemma_trimmed_pieces_plain(rest);
        assert(is_plain(parts[parts.len() - 1]));
        lemma_trim_plain(parts.last());
        assert(rest.push(parts.last()) =~= parts);
    } else {
        assert(parts =~= Seq::<Seq<char>>::empty());
    }
}

/// The digits of a number hold no whitespace.
pub proof fn lemma_decimal_plain(n: nat)
    ensures
        is_plain(decimal(n)),
{
    lemma_parse_decimal(n);
    let d = decimal(n);
    assert('0' <= d[0] <= '9');
    assert('0' <= d[d.len() - 1] <= '9');
}

// ---------------------------------------------------------------------------
// What the helpers do
// ---------------------------------------------------------------------------

/// A space, a tab and the ends of lines are whitespace; no other character that can
/// be typed on a plain keyboard is.
pub proof fn lemma_usual_whitespace(c: char)
    ensures
        c == ' ' || c == '\t' || c == '\n' || c == '\r' ==> is_space(c),
        '!' <= c <= '~' ==> !is_space(c),
        c as int == 0xa0 || c as int == 0x3000 || c as int == 0x2028 ==> is_space(c),
{
}

/// Trimming takes whitespace from both ends and nothing from between; of whitespace
/// alone nothing is left.
pub proof fn lemma_trim_takes_the_ends(a: Seq<char>, d: Seq<char>, b: Seq<char>)
    requires
        is_blank(a),
        is_blank(b),
    ensures
        is_plain(d) ==> trim_spec(a + d + b) == d,
        trim_spec(a) == Seq::<char>::empty(),
{
    if is_plain(d) {
        let t = a + d + b;
        let end = a.len() + d.len();
        assert forall|i: int| end <= i < t.len() implies is_space(#[trigger] t[i]) by {
            assert(t[i] == b[i - end]);
        }
        assert(t[end - 1] == d.last());
        lemma_trimmed_len_at(t, end);
        let u = trim_end_spec(t);
        assert(u =~= a + d);
        assert forall|i: int| 0 <= i < a.len() implies is_space(#[trigger] u[i]) by {
            assert(u[i] == a[i]);
        }
        assert(u[a.len() as int] == d[0]);
        lemma_leading_space_at(u, a.len());
        assert(trim_start_spec(u) =~= d);
    }
    lemma_trim_empty_iff_blank(a);
    assert(trim_spec(a) =~= Seq::<char>::empty());
}

/// A number is written with its last digit behind the digits of its tens, and never
/// with a zero in front.
pub proof fn lemma_digits_of_a_number(n: nat, d: nat)
    requires
        d < 10,
    ensures
        decimal(d) == seq![digit(d)],
        digit(d) as int == '0' as int + d,
        n > 0 ==> decimal(10 * n + d) == decimal(n).push(digit(d)),
        n > 0 ==> decimal(n)[0] != '0',
        decimal(n).len() > 0,
    decreases n,
{
    if n > 0 {
        assert((10 * n + d) / 10 == n && (10 * n + d) % 10 == d);
        if n >= 10 {
            lemma_digits_of_a_number(n / 10, 0);
        }
    }
}

/// A negative number is written with a minus sign in front.
pub proof fn lemma_sign_of_a_number(n: nat)
    ensures
        signed(n as int) == decimal(n),
        n > 0 ==> signed(-n) == seq!['-'] + decimal(n),
{
}

/// A padded number is its digits behind as many zeros as are missing.
pub proof fn lemma_padding_is_zeros_in_front(n: nat, width: nat)
    ensures
        ({
            let d = decimal(n);
            let p = padded(n, width);
            let zeros = p.len() - d.len();
            &&& zeros >= 0
            &&& d.len() <= width ==> p.len() == width
            &&& d.len() > width ==> p == d
            &&& p.skip(zeros) == d
            &&& forall|i: int| 0 <= i < zeros ==> #[trigger] p[i] == '0'
        }),
{
    let d = decimal(n);
    let p = padded(n, width);
    assert(p.skip(p.len() - d.len()) =~= d);
}

/// What holds anything but digits behind an optional plus sign is no number.
pub proof fn lemma_no_number_with_other_characters(s: Seq<char>, i: int, max: nat)
    requires
        0 <= i < s.len(),
        !('0' <= s[i] <= '9'),
        i > 0 || s[i] != '+',
    ensures
        parsed(s, max) is None,
{
    if s[0] == '+' {
        assert(s.skip(1)[i - 1] == s[i]);
    }
}

/// The digits of a number are read as the number where it is at most `max`, with or
/// without a plus sign, and not at all where it is more. Nothing is no number.
pub proof fn lemma_numbers_are_read_up_to_the_limit(n: nat, max: nat)
    ensures
        n <= max ==> parsed(decimal(n), max) == Some(n),
        n <= max ==> parsed(seq!['+'] + decimal(n), max) == Some(n),
        n > max ==> parsed(decimal(n), max) is None,
        parsed(Seq::<char>::empty(), max) is None,
{
    lemma_parse_decimal(n);
    assert((seq!['+'] + decimal(n)).skip(1) =~= decimal(n));
}

/// A text comes before another where it differs first in a smaller character, or where
/// it is a beginning of the other.
pub proof fn lemma_order_is_by_the_first_difference(
    head: Seq<char>,
    c: char,
    d: char,
    a: Seq<char>,
    b: Seq<char>,
)
    ensures
        before(head + seq![c] + a, head + seq![d] + b) == (c < d || (c == d && before(a, b))),
        before(head, head + seq![d] + b),
        !before(head + seq![d] + b, head),
    decreases head.len(),
{
    let (x, y) = (head + seq![c] + a, head + seq![d] + b);
    if head.len() == 0 {
        assert(x.skip(1) =~= a);
        assert(y.skip(1) =~= b);
    } else {
        lemma_order_is_by_the_first_difference(head.skip(1), c, d, a, b);
        assert(x.skip(1) =~= head.skip(1) + seq![c] + a);
        assert(y.skip(1) =~= head.skip(1) + seq![d] + b);
    }
}

/// A line end behind the last line makes no line more, and a carriage return before a
/// line end does not belong to the line.
pub proof fn lemma_lines_end_at_newlines(a: Seq<char>, line: Seq<char>)
    requires
        !line.contains('\n'),
    ensures
        a.len() == 0 ==> lines_spec(a).len() == 0,
        line.len() > 0 ==> lines_spec(line) == seq![line],
        lines_spec(line + seq!['\n']) == seq![without_return(line)],
        line.len() > 0 ==> lines_spec(a + seq!['\n'] + line) == lines_spec(a + seq!['\n']).push(line),
        lines_spec(a + seq!['\n'] + line + seq!['\n']) == lines_spec(a + seq!['\n']).push(
            without_return(line),
        ),
{
    let e = Seq::<char>::empty();
    lemma_split_one(line, '\n');
    lemma_split_one(e, '\n');
    lemma_split_tail(line, '\n', e);
    assert(line + seq!['\n'] + e =~= line + seq!['\n']);
    assert(lines_spec(line + seq!['\n']) =~= seq![without_return(line)]);
    if line.len() > 0 {
        assert(lines_spec(line) =~= seq![line]);
    }
    let x = a + seq!['\n'];
    lemma_split_tail(a, '\n', e);
    assert(x + e =~= x);
    lemma_split_tail(a, '\n', line);
    let y = x + line;
    lemma_split_tail(y, '\n', e);
    assert(y + seq!['\n'] + e =~= y + seq!['\n']);
    if line.len() > 0 {
        assert(lines_spec(y) =~= lines_spec(x).push(line));
    }
    assert(lines_spec(y + seq!['\n']) =~= lines_spec(x).push(without_return(line)));
    if a.len() == 0 {
        assert(a =~= e);
        assert(lines_spec(a) =~= Seq::<Seq<char>>::empty());
    }
}

/// A line loses one carriage return at its end and nothing else.
pub proof fn lemma_one_return_goes(line: Seq<char>)
    ensures
        without_return(line + seq!['\r']) == line,
        line.len() == 0 || line.last() != '\r' ==> without_return(line) == line,
{
    assert((line + seq!['\r']).drop_last() =~= line);
}

/// Between two joined texts stands the separator; one alone is as it is.
pub proof fn lemma_separator_stands_between(parts: Seq<Seq<char>>, last: Seq<char>, sep: Seq<char>)
    ensures
        join_spec(Seq::<Seq<char>>::empty(), sep) == Seq::<char>::empty(),
        join_spec(seq![last], sep) == last,
        parts.len() > 0 ==> join_spec(parts.push(last), sep) == join_spec(parts, sep) + sep + last,
{
    assert(parts.push(last).drop_last() =~= parts);
}

/// A text begins with another exactly where it is that and something behind it.
pub proof fn lemma_prefix_is_a_beginning(t: Seq<char>, head: Seq<char>)
    ensures
        has_prefix(t, head) <==> exists|rest: Seq<char>| t == head + rest,
{
    if has_prefix(t, head) {
        assert(t =~= head + t.skip(head.len() as int));
    }
    if exists|rest: Seq<char>| t == head + rest {
        let rest = choose|rest: Seq<char>| t == head + rest;
        assert(t.take(head.len() as int) =~= head);
    }
}

/// A separator parts what stands before it from what stands behind it; a text without one
/// is its only piece.
pub proof fn lemma_separator_parts_a_text(a: Seq<char>, sep: char, b: Seq<char>)
    ensures
        split_spec(a + seq![sep] + b, sep) == split_spec(a, sep) + split_spec(b, sep),
        !a.contains(sep) ==> split_spec(a, sep) == seq![a],
    decreases b.len(),
{
    let s = a + seq![sep] + b;
    if !a.contains(sep) {
        lemma_split_one(a, sep);
    }
    if b.len() == 0 {
        assert(s.drop_last() =~= a);
        assert(split_spec(s, sep) =~= split_spec(a, sep) + split_spec(b, sep));
    } else {
        let c = b.drop_last();
        lemma_separator_parts_a_text(a, sep, c);
        lemma_split_nonempty(c, sep);
        assert(s.drop_last() =~= a + seq![sep] + c);
        assert(s.last() == b.last());
        let (p, q) = (split_spec(a, sep), split_spec(c, sep));
        assert((p + q).drop_last() =~= p + q.drop_last());
        assert((p + q).last() == q.last());
        assert(split_spec(s, sep) =~= p + split_spec(b, sep));
    }
}

/// Whitespace parts the words before it from those behind it, however much of it there
/// is; whitespace alone has no word, and a word without any is itself.
pub proof fn lemma_whitespace_parts_words(a: Seq<char>, gap: char, b: Seq<char>)
    requires
        is_space(gap),
    ensures
        words_spec(a + seq![gap] + b) == words_spec(a) + words_spec(b),
        is_blank(b) ==> words_spec(b).len() == 0,
        is_word(b) ==> words_spec(b) == seq![b],
    decreases b.len(),
{
    let s = a + seq![gap] + b;
    if is_word(b) {
        lemma_words_one(b);
    }
    if b.len() == 0 {
        assert(s.drop_last() =~= a);
        assert(words_spec(a) + words_spec(b) =~= words_spec(a));
    } else {
        let c = b.drop_last();
        lemma_whitespace_parts_words(a, gap, c);
        assert(s.drop_last() =~= a + seq![gap] + c);
        assert(s.last() == b.last());
        let (p, q) = (words_spec(a), words_spec(c));
        if is_space(b.last()) {
            if is_blank(b) {
                assert forall|i: int| 0 <= i < c.len() implies is_space(#[trigger] c[i]) by {
                    assert(c[i] == b[i]);
                }
            }
        } else {
            assert(!is_blank(b)) by {
                assert(!is_space(b[b.len() - 1]));
            }
            if b.len() >= 2 {
                assert(s[s.len() - 2] == b[b.len() - 2]);
                if !is_space(b[b.len() - 2]) {
                    assert(!is_space(c.last()));
                    lemma_words_end(c);
                    assert((p + q).drop_last() =~= p + q.drop_last());
                    assert((p + q).last() == q.last());
                }
            } else {
                assert(s[s.len() - 2] == gap);
            }
            assert(words_spec(s) =~= p + words_spec(b));
        }
    }
}

/// Of pieces each is kept without the whitespace at its ends, and blank ones are left out.
pub proof fn lemma_blank_pieces_are_left_out(
    p: Seq<Seq<char>>,
    a: Seq<char>,
    d: Seq<char>,
    b: Seq<char>,
)
    requires
        is_blank(a),
        is_blank(b),
        is_plain(d),
    ensures
        trimmed_pieces(Seq::<Seq<char>>::empty()).len() == 0,
        trimmed_pieces(p.push(a)) == trimmed_pieces(p),
        trimmed_pieces(p.push(a + d + b)) == trimmed_pieces(p).push(d),
{
    lemma_trim_takes_the_ends(a, d, b);
    assert(p.push(a).drop_last() =~= p);
    assert(p.push(a + d + b).drop_last() =~= p);
}

/// The characters that count as whitespace, one by one.
pub proof fn lemma_whitespace_one_by_one(c: char)
    ensures
        ({
            let n = c as int;
            let controls = n == 0x9 || n == 0xa || n == 0xb || n == 0xc || n == 0xd || n == 0x85;
            let blanks = n == 0x20 || n == 0xa0 || n == 0x1680 || n == 0x202f || n == 0x205f || n
                == 0x3000;
            let widths = n == 0x2000 || n == 0x2001 || n == 0x2002 || n == 0x2003 || n == 0x2004
                || n == 0x2005 || n == 0x2006 || n == 0x2007 || n == 0x2008 || n == 0x2009 || n
                == 0x200a;
            let ends = n == 0x2028 || n == 0x2029;
            is_space(c) <==> controls || blanks || widths || ends
        }),
{
}

} // verus!

//! Decimal rendering and strict parsing of unsigned integers, and splitting
//! of `|`-separated ASCII records — the building blocks of the line formats
//! exchanged between endpoints.
use vstd::prelude::*;
use vstd::string::*;

verus! {

/// The character for decimal digit `d` (`0 <= d < 10`).
pub open spec fn digit_char(d: int) -> char {
    (d + 48) as char
}

/// Whether `c` is an ASCII decimal digit.
pub open spec fn is_digit(c: char) -> bool {
    48 <= (c as int) <= 57
}

/// The value of the ASCII digit `c`.
pub open spec fn digit_value(c: char) -> int {
    (c as int) - 48
}

/// Whether every character of `s` is an ASCII decimal digit.
pub open spec fn all_digits(s: Seq<char>) -> bool {
    forall|i: int| 0 <= i < s.len() ==> is_digit(#[trigger] s[i])
}

/// The number a digit string denotes (most significant digit first).
pub open spec fn digits_value(s: Seq<char>) -> int
    decreases s.len(),
{
    if s.len() == 0 {
        0
    } else {
        digits_value(s.drop_last()) * 10 + digit_value(s.last())
    }
}

/// The decimal rendering of `n`: no sign, no leading zeros.
pub open spec fn decimal(n: nat) -> Seq<char>
    decreases n,
{
    if n < 10 {
        seq![digit_char(n as int)]
    } else {
        decimal(n / 10).push(digit_char((n % 10) as int))
    }
}

/// Strict `u32` parsing as the standard library does it: an optional `+`,
/// then at least one ASCII digit and nothing else, with a value that fits.
pub open spec fn parse_u32(s: Seq<char>) -> Option<u32> {
    let body = if s.len() > 0 && s[0] == '+' {
        s.drop_first()
    } else {
        s
    };
    if body.len() > 0 && all_digits(body) && digits_value(body) <= u32::MAX {
        Some(digits_value(body) as u32)
    } else {
        None
    }
}

/// Strict `u64` parsing, as [`parse_u32`] but for 64-bit values.
pub open spec fn parse_u64(s: Seq<char>) -> Option<u64> {
    let body = if s.len() > 0 && s[0] == '+' {
        s.drop_first()
    } else {
        s
    };
    if body.len() > 0 && all_digits(body) && digits_value(body) <= u64::MAX {
        Some(digits_value(body) as u64)
    } else {
        None
    }
}

/// The fields of `s` between `sep` separators, as `str::split(sep)` yields
/// them: `k` separators give `k + 1` fields, empty ones included.
pub open spec fn split_on(s: Seq<char>, sep: char) -> Seq<Seq<char>>
    decreases s.len(),
{
    if s.len() == 0 {
        seq![Seq::<char>::empty()]
    } else {
        let init = split_on(s.drop_last(), sep);
        if s.last() == sep {
            init.push(Seq::<char>::empty())
        } else {
            init.update(init.len() - 1, init.last().push(s.last()))
        }
    }
}

/// The fields of `s` between `|` separators.
pub open spec fn split_bars(s: Seq<char>) -> Seq<Seq<char>> {
    split_on(s, '|')
}

/// Whether `s` contains no `sep`.
pub open spec fn free_of(s: Seq<char>, sep: char) -> bool {
    forall|i: int| 0 <= i < s.len() ==> #[trigger] s[i] != sep
}

/// Whether `s` contains no `|`.
pub open spec fn bar_free(s: Seq<char>) -> bool {
    free_of(s, '|')
}

pub proof fn lemma_split_nonempty(s: Seq<char>, sep: char)
    ensures
        split_on(s, sep).len() >= 1,
    decreases s.len(),
{
    if s.len() > 0 {
        lemma_split_nonempty(s.drop_last(), sep);
    }
}

/// A string free of the separator is a single field.
pub proof fn lemma_split_free(s: Seq<char>, sep: char)
    requires
        free_of(s, sep),
    ensures
        split_on(s, sep) == seq![s],
    decreases s.len(),
{
    if s.len() > 0 {
        let p = s.drop_last();
        assert(free_of(p, sep));
        lemma_split_free(p, sep);
        assert(s.last() != sep);
        assert(s.drop_last() =~= p);
        let init = split_on(p, sep);
        assert(init == seq![p]);
        assert(init.len() - 1 == 0);
        assert(p.push(s.last()) =~= s);
        assert(split_on(s, sep) == init.update(0, p.push(s.last())));
        assert(split_on(s, sep) =~= seq![s]);
    } else {
        assert(s =~= Seq::<char>::empty());
    }
}

/// A digit string denotes a non-negative number.
pub proof fn lemma_digits_value_nonneg(s: Seq<char>)
    requires
        all_digits(s),
    ensures
        digits_value(s) >= 0,
    decreases s.len(),
{
    if s.len() > 0 {
        let p = s.drop_last();
        assert forall|i: int| 0 <= i < p.len() implies is_digit(#[trigger] p[i]) by {
            assert(p[i] == s[i]);
        }
        lemma_digits_value_nonneg(p);
        assert(is_digit(s[s.len() - 1]));
    }
}

/// Splitting distributes over a separator.
pub proof fn lemma_split_concat(p: Seq<char>, q: Seq<char>, sep: char)
    ensures
        split_on(p + seq![sep] + q, sep) == split_on(p, sep) + split_on(q, sep),
    decreases q.len(),
{
    let pb = p + seq![sep];
    if q.len() == 0 {
        assert(pb + q =~= pb);
        assert(pb.drop_last() =~= p);
        assert(split_on(p, sep) + split_on(q, sep) =~= split_on(p, sep).push(Seq::<char>::empty()));
    } else {
        let q0 = q.drop_last();
        lemma_split_concat(p, q0, sep);
        lemma_split_nonempty(q0, sep);
        lemma_split_nonempty(p, sep);
        let s = pb + q;
        assert(s.drop_last() =~= pb + q0);
        assert(s.last() == q.last());
        let init = split_on(pb + q0, sep);
        assert(init == split_on(p, sep) + split_on(q0, sep));
        if q.last() == sep {
            assert(split_on(s, sep) =~= split_on(p, sep) + split_on(q, sep));
        } else {
            let a = split_on(p, sep);
            let b = split_on(q0, sep);
            assert(init.last() == b.last());
            assert(init.update(init.len() - 1, init.last().push(q.last())) =~= a + b.update(
                b.len() - 1,
                b.last().push(q.last()),
            ));
        }
    }
}

/// The fields with `sep` between them.
pub open spec fn join_on(fields: Seq<Seq<char>>, sep: char) -> Seq<char>
    decreases fields.len(),
{
    if fields.len() == 0 {
        Seq::<char>::empty()
    } else if fields.len() == 1 {
        fields[0]
    } else {
        join_on(fields.drop_last(), sep) + seq![sep] + fields.last()
    }
}

/// Splitting undoes joining when no field holds the separator.
pub proof fn lemma_split_join(fields: Seq<Seq<char>>, sep: char)
    requires
        fields.len() >= 1,
        forall|i: int| 0 <= i < fields.len() ==> free_of(#[trigger] fields[i], sep),
    ensures
        split_on(join_on(fields, sep), sep) == fields,
    decreases fields.len(),
{
    if fields.len() == 1 {
        lemma_split_free(fields[0], sep);
        assert(seq![fields[0]] =~= fields);
    } else {
        let init = fields.drop_last();
        assert forall|i: int| 0 <= i < init.len() implies free_of(#[trigger] init[i], sep) by {
            assert(init[i] == fields[i]);
        }
        lemma_split_join(init, sep);
        assert(free_of(fields[fields.len() - 1], sep));
        lemma_split_free(fields.last(), sep);
        lemma_split_concat(join_on(init, sep), fields.last(), sep);
        assert(init + seq![fields.last()] =~= fields);
    }
}

/// A join holds no `c` when neither the fields nor the separator do.
pub proof fn lemma_join_free(fields: Seq<Seq<char>>, sep: char, c: char)
    requires
        sep != c,
        forall|i: int| 0 <= i < fields.len() ==> free_of(#[trigger] fields[i], c),
    ensures
        free_of(join_on(fields, sep), c),
    decreases fields.len(),
{
    if fields.len() == 1 {
        assert(free_of(fields[0], c));
    } else if fields.len() > 1 {
        let init = fields.drop_last();
        assert forall|i: int| 0 <= i < init.len() implies free_of(#[trigger] init[i], c) by {
            assert(init[i] == fields[i]);
        }
        lemma_join_free(init, sep, c);
        assert(free_of(fields[fields.len() - 1], c));
        let a = join_on(init, sep);
        let j = a + seq![sep] + fields.last();
        assert forall|k: int| 0 <= k < j.len() implies #[trigger] j[k] != c by {
            if k < a.len() {
                assert(j[k] == a[k]);
            } else if k > a.len() {
                assert(j[k] == fields.last()[k - a.len() - 1]);
            }
        }
    }
}

/// Joining one more field appends the separator and the field.
pub proof fn lemma_join_push(fields: Seq<Seq<char>>, x: Seq<char>, sep: char)
    requires
        fields.len() >= 1,
    ensures
        join_on(fields.push(x), sep) == join_on(fields, sep) + seq![sep] + x,
{
    assert(fields.push(x).drop_last() =~= fields);
}

/// A digit string holds no character that is not a digit.
pub proof fn lemma_digits_free(s: Seq<char>, c: char)
    requires
        all_digits(s),
        !is_digit(c),
    ensures
        free_of(s, c),
{
    assert forall|i: int| 0 <= i < s.len() implies #[trigger] s[i] != c by {
        assert(is_digit(s[i]));
    }
}

pub proof fn lemma_digits_value_push(s: Seq<char>, c: char)
    ensures
        digits_value(s.push(c)) == digits_value(s) * 10 + digit_value(c),
{
    assert(s.push(c).drop_last() =~= s);
}

/// `decimal(n)` is a non-empty digit string without a sign that denotes `n`.
pub proof fn lemma_decimal_props(n: nat)
    ensures
        decimal(n).len() >= 1,
        all_digits(decimal(n)),
        bar_free(decimal(n)),
        decimal(n)[0] != '+',
        decimal(n)[0] != '-',
        digits_value(decimal(n)) == n,
        decimal(n) != seq!['-'],
    decreases n,
{
    if n < 10 {
        let s = decimal(n);
        assert(s.drop_last() =~= Seq::<char>::empty());
        assert(digit_value(digit_char(n as int)) == n);
        assert(digits_value(s) == digits_value(s.drop_last()) * 10 + digit_value(s.last()));
    } else {
        lemma_decimal_props(n / 10);
        let d = digit_char((n % 10) as int);
        lemma_digits_value_push(decimal(n / 10), d);
        let s = decimal(n);
        assert(s[0] == decimal(n / 10)[0]);
        assert forall|i: int| 0 <= i < s.len() implies is_digit(#[trigger] s[i]) by {
            if i < s.len() - 1 {
                assert(s[i] == decimal(n / 10)[i]);
            }
        }
    }
}

/// Parsing the rendering of a 32-bit value gives the value back.
pub proof fn lemma_parse_decimal_u32(n: u32)
    ensures
        parse_u32(decimal(n as nat)) == Some(n),
{
    lemma_decimal_props(n as nat);
}

/// Parsing the rendering of a 64-bit value gives the value back.
pub proof fn lemma_parse_decimal_u64(n: u64)
    ensures
        parse_u64(decimal(n as nat)) == Some(n),
{
    lemma_decimal_props(n as nat);
}

/// The one-character string for digit `d`.
fn digit_str(d: u64) -> (s: &'static str)
    requires
        d < 10,
    ensures
        s@ == seq![digit_char(d as int)],
{
    if d == 0 {
        proof { reveal_strlit("0"); }
        "0"
    } else if d == 1 {
        proof { reveal_strlit("1"); }
        "1"
    } else if d == 2 {
        proof { reveal_strlit("2"); }
        "2"
    } else if d == 3 {
        proof { reveal_strlit("3"); }
        "3"
    } else if d == 4 {
        proof { reveal_strlit("4"); }
        "4"
    } else if d == 5 {
        proof { reveal_strlit("5"); }
        "5"
    } else if d == 6 {
        proof { reveal_strlit("6"); }
        "6"
    } else if d == 7 {
        proof { reveal_strlit("7"); }
        "7"
    } else if d == 8 {
        proof { reveal_strlit("8"); }
        "8"
    } else {
        proof { reveal_strlit("9"); }
        "9"
    }
}

/// Appends the decimal rendering of `n` to `out`.
pub fn push_decimal(out: &mut String, n: u64)
    ensures
        final(out)@ == old(out)@ + decimal(n as nat),
    decreases n,
{
    if n >= 10 {
        push_decimal(out, n / 10);
    }
    out.append(digit_str(n % 10));
    proof {
        if n >= 10 {
            assert(decimal(n as nat) == decimal((n / 10) as nat).push(digit_char((n % 10) as int)));
        }
    }
    assert(final(out)@ =~= old(out)@ + decimal(n as nat));
}

/// Appends `s` to `out`.
pub fn push_str(out: &mut String, s: &str)
    ensures
        final(out)@ == old(out)@ + s@,
{
    out.append(s);
}

/// `String::push`: appends one character.
#[verifier::external_body]
fn push_char(out: &mut String, c: char)
    ensures
        final(out)@ == old(out)@.push(c),
{
    out.push(c);
}

/// Appends the characters `s` to `out`.
pub fn push_chars(out: &mut String, s: &[char])
    ensures
        final(out)@ == old(out)@ + s@,
{
    let mut i: usize = 0;
    while i < s.len()
        invariant
            i <= s.len(),
            out@ == old(out)@ + s@.take(i as int),
        decreases s.len() - i,
    {
        push_char(out, s[i]);
        i = i + 1;
        assert(out@ =~= old(out)@ + s@.take(i as int));
    }
    assert(s@.take(s@.len() as int) =~= s@);
}

/// A copy of the characters `s`.
pub fn copy_chars(s: &[char]) -> (v: Vec<char>)
    ensures
        v@ == s@,
{
    let mut v: Vec<char> = Vec::new();
    let mut i: usize = 0;
    while i < s.len()
        invariant
            i <= s.len(),
            v@ == s@.take(i as int),
        decreases s.len() - i,
    {
        v.push(s[i]);
        i = i + 1;
        assert(v@ =~= s@.take(i as int));
    }
    assert(s@.take(s@.len() as int) =~= s@);
    v
}

/// Whether `c` has the Unicode `White_Space` property, as `char::is_whitespace` tests.
pub open spec fn is_white_space(c: char) -> bool {
    let u = c as u32;
    ||| 9 <= u <= 13
    ||| u == 32
    ||| u == 0x85
    ||| u == 0xA0
    ||| u == 0x1680
    ||| 0x2000 <= u <= 0x200A
    ||| u == 0x2028
    ||| u == 0x2029
    ||| u == 0x202F
    ||| u == 0x205F
    ||| u == 0x3000
}

/// The maximal runs of non-white-space characters of `s`, in order, as
/// `str::split_whitespace` yields them.
pub open spec fn words(s: Seq<char>) -> Seq<Seq<char>>
    decreases s.len(),
{
    if s.len() == 0 {
        Seq::<Seq<char>>::empty()
    } else {
        let w = words(s.drop_last());
        let c = s.last();
        if is_white_space(c) {
            w
        } else if s.len() >= 2 && !is_white_space(s[s.len() - 2]) {
            w.update(w.len() - 1, w.last().push(c))
        } else {
            w.push(seq![c])
        }
    }
}

/// A string that ends inside a word has at least one word.
pub proof fn lemma_words_nonempty(s: Seq<char>)
    requires
        s.len() > 0,
        !is_white_space(s.last()),
    ensures
        words(s).len() >= 1,
    decreases s.len(),
{
    if s.len() >= 2 && !is_white_space(s[s.len() - 2]) {
        let p = s.drop_last();
        assert(p.last() == s[s.len() - 2]);
        lemma_words_nonempty(p);
    }
}

/// Whether `c` is white space (see [`is_white_space`]).
pub fn is_white_space_char(c: char) -> (b: bool)
    ensures
        b == is_white_space(c),
{
    let u = c as u32;
    (9 <= u && u <= 13) || u == 32 || u == 0x85 || u == 0xA0 || u == 0x1680 || (0x2000 <= u && u <= 0x200A)
        || u == 0x2028 || u == 0x2029 || u == 0x202F || u == 0x205F || u == 0x3000
}

/// The words of `s` (see [`words`]).
pub fn split_words(s: &[char]) -> (ws: Vec<Vec<char>>)
    ensures
        ws@.len() == words(s@).len(),
        forall|k: int| 0 <= k < ws@.len() ==> #[trigger] ws@[k]@ == words(s@)[k],
{
    let mut ws: Vec<Vec<char>> = Vec::new();
    let mut i: usize = 0;
    assert(s@.take(0) =~= Seq::<char>::empty());
    while i < s.len()
        invariant
            i <= s.len(),
            ws@.len() == words(s@.take(i as int)).len(),
            forall|k: int| 0 <= k < ws@.len() ==> #[trigger] ws@[k]@ == words(s@.take(i as int))[k],
        decreases s.len() - i,
    {
        let c = s[i];
        let ghost prev = s@.take(i as int);
        let ghost next = s@.take(i + 1);
        proof {
            assert(next.drop_last() =~= prev);
            assert(next.last() == c);
        }
        if is_white_space_char(c) {
        } else if i >= 1 && !is_white_space_char(s[i - 1]) {
            proof {
                assert(next[next.len() - 2] == s@[i - 1]);
                assert(prev.last() == s@[i - 1]);
                lemma_words_nonempty(prev);
            }
            let mut last = ws.pop().unwrap();
            last.push(c);
            ws.push(last);
            proof {
                let w = words(prev);
                assert(words(next) == w.update(w.len() - 1, w.last().push(c)));
                assert forall|k: int| 0 <= k < ws@.len() implies #[trigger] ws@[k]@ == words(next)[k] by {}
            }
        } else {
            proof {
                if i >= 1 {
                    assert(next[next.len() - 2] == s@[i - 1]);
                }
            }
            let mut w: Vec<char> = Vec::new();
            w.push(c);
            ws.push(w);
            proof {
                assert(w@ =~= seq![c]);
                assert forall|k: int| 0 <= k < ws@.len() implies #[trigger] ws@[k]@ == words(next)[k] by {}
            }
        }
        i = i + 1;
    }
    assert(s@.take(s@.len() as int) =~= s@);
    ws
}

/// The characters of `line`, in order.
pub fn chars_of(line: &str) -> (v: Vec<char>)
    ensures
        v@ == line@,
{
    let n = line.unicode_len();
    let mut v: Vec<char> = Vec::new();
    let mut i: usize = 0;
    while i < n
        invariant
            n == line@.len(),
            i <= n,
            v@ == line@.take(i as int),
        decreases n - i,
    {
        let c = line.get_char(i);
        v.push(c);
        i = i + 1;
        assert(v@ =~= line@.take(i as int));
    }
    assert(line@.take(n as int) =~= line@);
    v
}

/// Splits `s` at every `sep`, exactly as [`split_on`] specifies.
pub fn split_fields(s: &[char], sep: char) -> (fields: Vec<Vec<char>>)
    ensures
        fields@.len() == split_on(s@, sep).len(),
        forall|i: int| 0 <= i < fields@.len() ==> #[trigger] fields@[i]@ == split_on(s@, sep)[i],
{
    let mut fields: Vec<Vec<char>> = Vec::new();
    let mut cur: Vec<char> = Vec::new();
    let mut i: usize = 0;
    proof {
        assert(s@.take(0) =~= Seq::<char>::empty());
    }
    while i < s.len()
        invariant
            i <= s.len(),
            fields@.len() + 1 == split_on(s@.take(i as int), sep).len(),
            forall|k: int|
                0 <= k < fields@.len() ==> #[trigger] fields@[k]@ == split_on(s@.take(i as int), sep)[k],
            cur@ == split_on(s@.take(i as int), sep).last(),
        decreases s.len() - i,
    {
        let c = s[i];
        let ghost prev = s@.take(i as int);
        let ghost next = s@.take(i + 1);
        proof {
            assert(next.drop_last() =~= prev);
            assert(next.last() == c);
            lemma_split_nonempty(prev, sep);
        }
        if c == sep {
            let done = cur;
            fields.push(done);
            cur = Vec::new();
            proof {
                assert(split_on(next, sep) == split_on(prev, sep).push(Seq::<char>::empty()));
                assert forall|k: int| 0 <= k < fields@.len() implies #[trigger] fields@[k]@
                    == split_on(next, sep)[k] by {}
                assert(cur@ =~= split_on(next, sep).last());
            }
        } else {
            cur.push(c);
            proof {
                let init = split_on(prev, sep);
                assert(split_on(next, sep) == init.update(init.len() - 1, init.last().push(c)));
                assert forall|k: int| 0 <= k < fields@.len() implies #[trigger] fields@[k]@
                    == split_on(next, sep)[k] by {}
            }
        }
        i = i + 1;
    }
    proof {
        assert(s@.take(s@.len() as int) =~= s@);
    }
    fields.push(cur);
    proof {
        assert forall|k: int| 0 <= k < fields@.len() implies #[trigger] fields@[k]@ == split_on(s@, sep)[k] by {}
    }
    fields
}

/// Strict `u32` parsing (see [`parse_u32`]).
pub fn parse_u32_chars(s: &[char]) -> (r: Option<u32>)
    ensures
        r == parse_u32(s@),
{
    match parse_digits(s, 4_294_967_295u64) {
        Some(v) => {
            assert(v <= u32::MAX);
            Some(v as u32)
        },
        None => None,
    }
}

/// Strict `u64` parsing (see [`parse_u64`]).
pub fn parse_u64_chars(s: &[char]) -> (r: Option<u64>)
    ensures
        r == parse_u64(s@),
{
    parse_digits(s, u64::MAX)
}

/// An optional `+`, then one or more digits denoting a value at most `max`.
fn parse_digits(s: &[char], max: u64) -> (r: Option<u64>)
    requires
        max >= 9,
    ensures
        ({
            let body = if s@.len() > 0 && s@[0] == '+' {
                s@.drop_first()
            } else {
                s@
            };
            &&& (all_digits(body) ==> digits_value(body) >= 0)
            &&& r == if body.len() > 0 && all_digits(body) && digits_value(body) <= max {
                Some(digits_value(body) as u64)
            } else {
                None::<u64>
            }
        }),
{
    let ghost body = if s@.len() > 0 && s@[0] == '+' {
        s@.drop_first()
    } else {
        s@
    };
    let start: usize = if s.len() > 0 && s[0] == '+' {
        1
    } else {
        0
    };
    if start >= s.len() {
        assert(body.len() == 0);
        return None;
    }
    let mut v: u64 = 0;
    let mut over = false;
    let mut i: usize = start;
    assert(s@.subrange(start as int, start as int) =~= Seq::<char>::empty());
    while i < s.len()
        invariant
            max >= 9,
            body == (if s@.len() > 0 && s@[0] == '+' { s@.drop_first() } else { s@ }),
            start <= i <= s.len(),
            body =~= s@.subrange(start as int, s@.len() as int),
            all_digits(s@.subrange(start as int, i as int)),
            !over ==> v == digits_value(s@.subrange(start as int, i as int)) && v <= max,
            over ==> digits_value(s@.subrange(start as int, i as int)) > max,
        decreases s.len() - i,
    {
        let c = s[i];
        let ghost pre = s@.subrange(start as int, i as int);
        assert(s@.subrange(start as int, i + 1) =~= pre.push(c));
        if !('0' <= c && c <= '9') {
            assert(body[i - start] == c);
            assert(!(48 <= c as int <= 57));
            assert(!is_digit(body[i - start]));
            assert(!all_digits(body));
            return None;
        }
        assert(is_digit(c));
        let d = (c as u32 - 48) as u64;
        proof {
            lemma_digits_value_push(pre, c);
        }
        if !over {
            if v > (max - d) / 10 {
                over = true;
                assert(v * 10 + d > max) by (nonlinear_arith)
                    requires
                        v > (max - d) / 10,
                        d <= 9,
                        d <= max,
                ;
            } else {
                assert(v * 10 + d <= max) by (nonlinear_arith)
                    requires
                        v <= (max - d) / 10,
                        d <= max,
                ;
                v = v * 10 + d;
            }
        }
        proof {
            let nxt = s@.subrange(start as int, i + 1);
            assert forall|k: int| 0 <= k < nxt.len() implies is_digit(#[trigger] nxt[k]) by {
                if k < pre.len() {
                    assert(nxt[k] == pre[k]);
                } else {
                    assert(nxt[k] == c);
                }
            }
        }
        i = i + 1;
    }
    proof {
        assert(s@.subrange(start as int, s@.len() as int) =~= body);
        lemma_digits_value_nonneg(body);
    }
    if over {
        None
    } else {
        Some(v)
    }
}

} // verus!

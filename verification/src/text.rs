use vstd::prelude::*;

verus! {

/// The marker appended to a truncated value.
pub const ELLIPSIS: &'static str = "...";

/// The three characters of `ELLIPSIS`.
pub open spec fn ellipsis() -> Seq<char> {
    seq!['.', '.', '.']
}

/// `value` cut to at most `max_length` scalars: a value that fits is kept
/// whole; a longer one keeps its first `max_length - 3` scalars (none when
/// `max_length < 3`) followed by the ellipsis.
pub open spec fn truncated(value: Seq<char>, max_length: nat) -> Seq<char> {
    if value.len() <= max_length {
        value
    } else {
        let keep: int = if max_length >= 3 { max_length - 3 } else { 0 };
        value.take(keep) + ellipsis()
    }
}

/// Truncation counts Unicode scalars: a value of at most `max_length` scalars
/// is kept whole, whatever its characters; a longer one keeps exactly its first
/// `max_length - 3` scalars (when `max_length >= 3`) and ends with `...`,
/// `max_length` scalars in all.
pub proof fn law_truncation_counts_scalars(value: Seq<char>, max_length: nat)
    ensures
        value.len() <= max_length ==> truncated(value, max_length) == value,
        value.len() > max_length && max_length >= 3 ==> {
            let cut = truncated(value, max_length);
            &&& cut.len() == max_length
            &&& forall|i: int| 0 <= i < max_length - 3 ==> cut[i] == value[i]
            &&& cut[max_length - 3] == '.' && cut[max_length - 2] == '.' && cut[max_length - 1] == '.'
        },
{
}

/// Cuts `value` to `max_length` Unicode scalar values, marking a cut with `...`.
pub fn truncate(value: &str, max_length: usize) -> (res: String)
    ensures
        res@ == truncated(value@, max_length as nat),
        value@.len() <= max_length ==> res@ == value@,
        max_length >= 3 ==> res@.len() <= max_length,
        value@.len() > max_length ==> res@.len() == (if max_length >= 3 { max_length as int } else { 3 }),
        value@.len() > max_length ==> res@.skip(res@.len() - 3) == ellipsis(),
{
    let count = value.unicode_len();
    if count <= max_length {
        return value.to_owned();
    }
    let keep = max_length.saturating_sub(3);
    let mut res = value.substring_char(0, keep).to_owned();
    res.append(ELLIPSIS);
    proof {
        reveal_strlit("...");
        assert(res@.skip(res@.len() - 3) =~= ellipsis());
    }
    res
}

} // verus!

verus! {

/// A decimal digit.
pub open spec fn is_decimal_digit(c: char) -> bool {
    '0' <= c && c <= '9'
}

/// A hexadecimal digit, in either case.
pub open spec fn is_hex_digit(c: char) -> bool {
    is_decimal_digit(c) || ('a' <= c && c <= 'f') || ('A' <= c && c <= 'F')
}

/// A digit of the radix that `hex` selects.
pub open spec fn is_radix_digit(c: char, hex: bool) -> bool {
    if hex {
        is_hex_digit(c)
    } else {
        is_decimal_digit(c)
    }
}

/// The value of a (decimal or hexadecimal) digit.
pub open spec fn digit_value(c: char) -> int {
    if is_decimal_digit(c) {
        c as int - '0' as int
    } else if 'a' <= c && c <= 'f' {
        c as int - 'a' as int + 10
    } else {
        c as int - 'A' as int + 10
    }
}

/// The number that the digits `digits` denote in base `radix`, most significant first.
pub open spec fn digits_value(digits: Seq<char>, radix: int) -> int
    decreases digits.len(),
{
    if digits.len() == 0 {
        0
    } else {
        digits_value(digits.drop_last(), radix) * radix + digit_value(digits.last())
    }
}

/// The character whose scalar value is `v`, if `v` is a Unicode scalar value.
pub open spec fn scalar_of(v: int) -> Option<char> {
    if (0 <= v && v <= 0xD7FF) || (0xE000 <= v && v <= 0x10FFFF) {
        Some(v as char)
    } else {
        None
    }
}

/// The end of the run of digits (of the radix `hex` selects) that starts at `i`.
pub open spec fn digits_end(text: Seq<char>, i: int, hex: bool) -> int
    decreases text.len() - i,
{
    if 0 <= i < text.len() && is_radix_digit(text[i], hex) {
        digits_end(text, i + 1, hex)
    } else {
        i
    }
}

/// The numeric reference that starts with `&#` at `start`: after `&#`, an optional `x`
/// or `X` selects hexadecimal, then at least one digit must follow (else there
/// is no reference: `None`). The reference ends after the digits, and after a
/// `;` that directly follows them. It is decoded (second component `Some` of the
/// scalar) only when the `;` is there and the radix marker is not `X`;
/// otherwise, or when the number is no Unicode scalar value, it is kept as
/// written (second component `None`).
pub open spec fn numeric_reference(text: Seq<char>, start: int) -> Option<(int, Option<char>)> {
    let p = start + 2;
    let marked = 0 <= p < text.len() && (text[p] == 'x' || text[p] == 'X');
    let upper = 0 <= p < text.len() && text[p] == 'X';
    let digits_start = if marked { p + 1 } else { p };
    let digits_stop = digits_end(text, digits_start, marked);
    if digits_stop == digits_start {
        None
    } else {
        let terminated = digits_stop < text.len() && text[digits_stop] == ';';
        let end = if terminated { digits_stop + 1 } else { digits_stop };
        if !terminated || upper {
            Some((end, None))
        } else {
            let radix: int = if marked { 16 } else { 10 };
            Some((end, scalar_of(digits_value(text.subrange(digits_start, digits_stop), radix))))
        }
    }
}

/// A numeric reference starts at `k`.
pub open spec fn is_reference_at(text: Seq<char>, k: int) -> bool {
    &&& 0 <= k
    &&& k + 1 < text.len()
    &&& text[k] == '&'
    &&& text[k + 1] == '#'
    &&& numeric_reference(text, k) is Some
}

/// The first position at or after `i` where a numeric reference starts.
pub open spec fn next_reference(text: Seq<char>, i: int) -> Option<int>
    decreases text.len() - i,
{
    if i < 0 || i >= text.len() {
        None
    } else if is_reference_at(text, i) {
        Some(i)
    } else {
        next_reference(text, i + 1)
    }
}

/// Where the numeric reference at `k` ends.
pub open spec fn reference_end(text: Seq<char>, k: int) -> int {
    match numeric_reference(text, k) {
        Some((end, _)) => end,
        None => k,
    }
}

/// What the numeric reference at `k` becomes: its character, or its own text.
pub open spec fn reference_replacement(text: Seq<char>, k: int) -> Seq<char> {
    match numeric_reference(text, k) {
        Some((_, Some(c))) => seq![c],
        Some((end, None)) => text.subrange(k, end),
        None => Seq::empty(),
    }
}

/// Hexadecimal letters are worth ten and up in either case: a lower-case letter
/// and its upper-case form have the same value, `a`/`A` is worth 10 and each
/// next letter one more; a decimal digit is worth its distance from `0`.
pub proof fn law_hex_digit_values(c: char)
    ensures
        '0' <= c <= '9' ==> digit_value(c) == (c as int) - ('0' as int),
        'a' <= c <= 'f' ==> digit_value(c) == digit_value(((c as int) - 32) as char),
        'a' <= c <= 'f' ==> digit_value(c) == 10 + ((c as int) - ('a' as int)),
        'A' <= c <= 'F' ==> digit_value(c) == 10 + ((c as int) - ('A' as int)),
        is_hex_digit(c) ==> 0 <= digit_value(c) < 16,
{
}

/// A run of digits is read most significant first: one more digit multiplies
/// the value so far by the radix and adds the digit's value.
pub proof fn law_digits_value_positional(digits: Seq<char>, d: char, radix: int)
    ensures
        digits_value(Seq::<char>::empty(), radix) == 0,
        digits_value(digits.push(d), radix) == digits_value(digits, radix) * radix + digit_value(d),
{
    assert(digits.push(d).drop_last() =~= digits);
}

/// A run of digits ends at or after its start, and within the text when it starts there.
pub proof fn lemma_digits_end_bounds(text: Seq<char>, i: int, hex: bool)
    ensures
        i <= digits_end(text, i, hex),
        0 <= i <= text.len() ==> digits_end(text, i, hex) <= text.len(),
        forall|j: int| i <= j < digits_end(text, i, hex) ==> is_radix_digit(#[trigger] text[j], hex),
        0 <= digits_end(text, i, hex) < text.len() && 0 <= i ==> !is_radix_digit(text[digits_end(text, i, hex)], hex),
    decreases text.len() - i,
{
    if 0 <= i < text.len() && is_radix_digit(text[i], hex) {
        lemma_digits_end_bounds(text, i + 1, hex);
    }
}

/// A numeric reference at `k` ends past its `&#` and within the text.
pub proof fn lemma_reference_end_bounds(text: Seq<char>, k: int)
    requires
        0 <= k,
        numeric_reference(text, k) is Some,
    ensures
        k + 2 < reference_end(text, k) <= text.len(),
{
    let p = k + 2;
    let marked = 0 <= p < text.len() && (text[p] == 'x' || text[p] == 'X');
    let digits_start = if marked { p + 1 } else { p };
    lemma_digits_end_bounds(text, digits_start, marked);
}

/// What a numeric reference at `start` is made of: there is one exactly when a
/// digit follows `&#` (after an optional `x`/`X`); everything up to its end
/// after the marker is digits except a final `;`; it is decoded only when that
/// `;` is there and the marker is not `X`, and then to the character whose
/// scalar value the digits denote, in base 16 after a marker and base 10
/// without one.
pub proof fn law_numeric_reference_shape(text: Seq<char>, start: int)
    requires
        0 <= start,
    ensures
        ({
            let p = start + 2;
            let marked = p < text.len() && (text[p] == 'x' || text[p] == 'X');
            let first = if marked { p + 1 } else { p };
            numeric_reference(text, start) is None <==> !(first < text.len() && is_radix_digit(text[first], marked))
        }),
        numeric_reference(text, start) matches Some((end, decoded)) ==> {
            let p = start + 2;
            let marked = text[p] == 'x' || text[p] == 'X';
            let first = if marked { p + 1 } else { p };
            &&& first < end <= text.len()
            &&& forall|j: int| first <= j < end ==> (is_radix_digit(#[trigger] text[j], marked) || (j == end - 1 && text[j] == ';'))
            &&& (end < text.len() ==> is_radix_digit(text[end - 1], marked) ==> !is_radix_digit(text[end], marked) && text[end] != ';')
            &&& (decoded matches Some(c) ==> {
                &&& text[end - 1] == ';'
                &&& text[p] != 'X'
                &&& c as int == digits_value(text.subrange(first, end - 1), if marked { 16 } else { 10 })
            })
            &&& (text[end - 1] == ';' && text[p] != 'X' && scalar_of(digits_value(text.subrange(first, end - 1), if marked { 16 } else { 10 })) is Some ==> decoded is Some)
        },
{
    let p = start + 2;
    let marked = 0 <= p < text.len() && (text[p] == 'x' || text[p] == 'X');
    let first = if marked { p + 1 } else { p };
    lemma_digits_end_bounds(text, first, marked);
    if first < text.len() && is_radix_digit(text[first], marked) {
        assert(digits_end(text, first, marked) == digits_end(text, first + 1, marked));
        lemma_digits_end_bounds(text, first + 1, marked);
    }
}

/// Text without a numeric reference is decoded by HTML unescaping alone.
pub proof fn law_text_without_reference_is_unescaped(text: Seq<char>)
    ensures
        next_reference(text, 0) is None ==> decoded_html(text) == html_unescape(text),
{
    assert(text.subrange(0, text.len() as int) =~= text);
}

/// A reference found from `i` lies at or after `i`.
pub proof fn lemma_next_reference_bounds(text: Seq<char>, i: int)
    ensures
        next_reference(text, i) matches Some(k) ==> i <= k && is_reference_at(text, k),
    decreases text.len() - i,
{
    if 0 <= i < text.len() && !is_reference_at(text, i) {
        lemma_next_reference_bounds(text, i + 1);
    }
}

/// The text from segment start `i` on, decoded: the plain stretch up to the
/// next numeric reference goes through HTML unescaping, the reference is
/// replaced, and decoding goes on after it.
pub open spec fn decode_from(text: Seq<char>, i: int) -> Seq<char>
    decreases text.len() - i,
{
    if i < 0 || i > text.len() {
        Seq::empty()
    } else {
        match next_reference(text, i) {
            Some(k) => {
                proof {
                    lemma_next_reference_bounds(text, i);
                    lemma_reference_end_bounds(text, k);
                }
                html_unescape(text.subrange(i, k)) + reference_replacement(text, k) + decode_from(
                    text,
                    reference_end(text, k),
                )
            },
            None => html_unescape(text.subrange(i, text.len() as int)),
        }
    }
}

/// `text` with its numeric references handled as `numeric_reference` says and
/// every stretch between them HTML-unescaped.
pub open spec fn decoded_html(text: Seq<char>) -> Seq<char> {
    decode_from(text, 0)
}

/// A name for what `htmlize::unescape` returns for a text: the text with its
/// HTML character references expanded. Its table of named entities takes pages,
/// so the library states nothing of it beyond what `unescape_html` says.
pub uninterp spec fn html_unescape(text: Seq<char>) -> Seq<char>;

/// Calls `htmlize::unescape`. Trusted: its result is `html_unescape` of the
/// input, and a text without `&` comes back unchanged (the crate scans for `&`
/// and returns its input when it finds none).
#[verifier::external_body]
fn unescape_html(text: &str) -> (res: String)
    ensures
        res@ == html_unescape(text@),
        !text@.contains('&') ==> res@ == text@,
{
    htmlize::unescape(text).into_owned()
}

/// Calls `char::from_u32`. Trusted: std documents that it returns the char
/// with scalar value `v`, and `None` when `v` is no Unicode scalar value.
#[verifier::external_body]
fn char_from_u32(v: u32) -> (res: Option<char>)
    ensures
        res == scalar_of(v as int),
{
    char::from_u32(v)
}

/// Calls `String::push`. Trusted: std documents that it appends `c`.
#[verifier::external_body]
fn push_char(s: &mut String, c: char)
    ensures
        final(s)@ == old(s)@.push(c),
{
    s.push(c)
}

/// The characters of `text`.
pub fn chars_of(text: &str) -> (res: Vec<char>)
    ensures
        res@ == text@,
{
    let mut res: Vec<char> = Vec::new();
    for c in it: text.chars()
        invariant
            res@ == it.seq().take(it.index()),
    {
        res.push(c);
    }
    res
}

/// The characters `chars[from..to]` as a string.
pub fn string_of(chars: &[char], from: usize, to: usize) -> (res: String)
    requires
        from <= to <= chars@.len(),
    ensures
        res@ == chars@.subrange(from as int, to as int),
{
    let mut res = String::new();
    let mut i = from;
    while i < to
        invariant
            from <= i <= to <= chars@.len(),
            res@ == chars@.subrange(from as int, i as int),
        decreases to - i,
    {
        push_char(&mut res, chars[i]);
        proof {
            assert(chars@.subrange(from as int, i + 1) =~= chars@.subrange(from as int, i as int).push(chars@[i as int]));
        }
        i = i + 1;
    }
    res
}

fn is_radix_digit_exec(c: char, hex: bool) -> (res: bool)
    ensures
        res == is_radix_digit(c, hex),
{
    if hex {
        ('0' <= c && c <= '9') || ('a' <= c && c <= 'f') || ('A' <= c && c <= 'F')
    } else {
        '0' <= c && c <= '9'
    }
}

fn digit_value_exec(c: char) -> (res: u32)
    requires
        is_hex_digit(c),
    ensures
        res == digit_value(c),
        res < 16,
{
    if '0' <= c && c <= '9' {
        (c as u32) - ('0' as u32)
    } else if 'a' <= c && c <= 'f' {
        (c as u32) - ('a' as u32) + 10
    } else {
        (c as u32) - ('A' as u32) + 10
    }
}

/// Digit values are never negative, and a longer run of digits is worth at least as much.
proof fn lemma_digits_value_step(digits: Seq<char>, radix: int)
    requires
        digits.len() > 0,
        radix >= 1,
        forall|j: int| 0 <= j < digits.len() ==> is_hex_digit(#[trigger] digits[j]),
    ensures
        0 <= digits_value(digits.drop_last(), radix) <= digits_value(digits, radix),
    decreases digits.len(),
{
    if digits.len() > 1 {
        let d = digits.drop_last();
        assert forall|j: int| 0 <= j < d.len() implies is_hex_digit(#[trigger] d[j]) by {
            assert(d[j] == digits[j]);
        }
        lemma_digits_value_step(d, radix);
    }
    let v = digits_value(digits.drop_last(), radix);
    let c = digits.last();
    assert(is_hex_digit(c));
    assert(0 <= digit_value(c));
    assert(v >= 0 ==> v * radix >= v) by (nonlinear_arith)
        requires
            radix >= 1,
    ;
}

/// Reads the numeric reference that starts at `start` (where `text` holds
/// `&#`): `None` when no digit follows, else where it ends and, when it is to
/// be decoded, its character (see `numeric_reference`).
pub fn legacy_numeric_reference(text: &[char], start: usize) -> (res: Option<(usize, Option<char>)>)
    requires
        start <= usize::MAX - 2,
    ensures
        match res {
            Some((end, c)) => numeric_reference(text@, start as int) == Some((end as int, c)),
            None => numeric_reference(text@, start as int) is None,
        },
{
    let ghost t = text@;
    let len = text.len();
    let mut cursor = start + 2;
    if cursor >= len {
        return None;
    }
    let mut hex = false;
    let mut upper = false;
    if text[cursor] == 'x' {
        hex = true;
        cursor = cursor + 1;
    } else if text[cursor] == 'X' {
        hex = true;
        upper = true;
        cursor = cursor + 1;
    }
    let digits_start = cursor;
    let radix: u32 = if hex { 16 } else { 10 };
    let mut value: Option<u32> = Some(0);
    proof {
        lemma_digits_end_bounds(t, digits_start as int, hex);
        assert(t.subrange(digits_start as int, digits_start as int) =~= Seq::<char>::empty());
    }
    while cursor < len && is_radix_digit_exec(text[cursor], hex)
        invariant
            t == text@,
            len == t.len(),
            digits_start <= cursor <= len,
            radix == (if hex { 16u32 } else { 10u32 }),
            digits_end(t, digits_start as int, hex) == digits_end(t, cursor as int, hex),
            forall|j: int| digits_start <= j < cursor ==> is_radix_digit(#[trigger] t[j], hex),
            value matches Some(v) ==> v == digits_value(t.subrange(digits_start as int, cursor as int), radix as int),
            value is None ==> digits_value(t.subrange(digits_start as int, cursor as int), radix as int) > u32::MAX,
        decreases len - cursor,
    {
        let c = text[cursor];
        let d = digit_value_exec(c);
        let ghost prefix = t.subrange(digits_start as int, cursor as int);
        let ghost next = t.subrange(digits_start as int, cursor + 1);
        proof {
            assert(next.drop_last() =~= prefix);
            assert(next.last() == c);
            assert forall|j: int| 0 <= j < next.len() implies is_hex_digit(#[trigger] next[j]) by {
                assert(next[j] == t[digits_start + j]);
                assert(is_radix_digit(t[digits_start + j], hex));
            }
            lemma_digits_value_step(next, radix as int);
        }
        value = match value {
            Some(v) => match v.checked_mul(radix) {
                Some(m) => m.checked_add(d),
                None => None,
            },
            None => None,
        };
        cursor = cursor + 1;
    }
    proof {
        lemma_digits_end_bounds(t, cursor as int, hex);
    }
    if cursor == digits_start {
        return None;
    }
    let terminated = cursor < len && text[cursor] == ';';
    let end = if terminated { cursor + 1 } else { cursor };
    if !terminated || upper {
        return Some((end, None));
    }
    let character = match value {
        Some(v) => char_from_u32(v),
        None => None,
    };
    Some((end, character))
}

/// Decodes the HTML in a title or breadcrumb:
/// numeric references are read as `numeric_reference` says (an unterminated one,
/// or one with an upper-case `X`, stays as written), and everything between them
/// goes through HTML unescaping. A text without `&` comes back unchanged.
pub fn decode_html_text(text: &str) -> (res: String)
    ensures
        res@ == decoded_html(text@),
        !text@.contains('&') ==> res@ == text@,
{
    let chars = chars_of(text);
    let ghost t = text@;
    let n = chars.len();
    let mut decoded = String::new();
    let mut segment_start: usize = 0;
    let mut cursor: usize = 0;
    while cursor < n
        invariant
            t == chars@,
            n == t.len(),
            segment_start <= cursor <= n,
            decoded@ + decode_from(t, segment_start as int) == decoded_html(t),
            next_reference(t, segment_start as int) == next_reference(t, cursor as int),
            !t.contains('&') ==> segment_start == 0 && decoded@.len() == 0,
        decreases n - cursor,
    {
        if chars[cursor] == '&' && cursor + 1 < n && chars[cursor + 1] == '#' {
            match legacy_numeric_reference(chars.as_slice(), cursor) {
                None => {
                    proof {
                        assert(!is_reference_at(t, cursor as int));
                        assert(!is_reference_at(t, cursor + 1));
                        assert(next_reference(t, cursor as int) == next_reference(t, cursor + 1));
                        assert(next_reference(t, cursor + 1) == next_reference(t, cursor + 2));
                    }
                    cursor = cursor + 2;
                },
                Some((end, character)) => {
                    proof {
                        assert(is_reference_at(t, cursor as int));
                        assert(t.contains('&')) by {
                            assert(t[cursor as int] == '&');
                        }
                        lemma_reference_end_bounds(t, cursor as int);
                    }
                    let segment = string_of(chars.as_slice(), segment_start, cursor);
                    let unescaped = unescape_html(segment.as_str());
                    decoded.append(unescaped.as_str());
                    match character {
                        Some(c) => push_char(&mut decoded, c),
                        None => {
                            let literal = string_of(chars.as_slice(), cursor, end);
                            decoded.append(literal.as_str());
                        },
                    }
                    proof {
                        assert(reference_end(t, cursor as int) == end);
                        assert(decode_from(t, segment_start as int) == html_unescape(
                            t.subrange(segment_start as int, cursor as int),
                        ) + reference_replacement(t, cursor as int) + decode_from(t, end as int));
                        assert(next_reference(t, end as int) == next_reference(t, end as int));
                    }
                    cursor = end;
                    segment_start = end;
                },
            }
        } else {
            proof {
                assert(!is_reference_at(t, cursor as int));
            }
            cursor = cursor + 1;
        }
    }
    let rest = string_of(chars.as_slice(), segment_start, n);
    let unescaped = unescape_html(rest.as_str());
    proof {
        assert(next_reference(t, n as int) is None);
        if !t.contains('&') {
            assert(rest@ =~= t);
        }
    }
    decoded.append(unescaped.as_str());
    proof {
        assert(decoded@ =~= decoded_html(t));
    }
    decoded
}

} // verus!

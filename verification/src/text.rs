//! Numbers and names as a person reads them.

use vstd::prelude::*;
use vstd::string::*;

verus! {

/// The character for one decimal digit.
pub open spec fn digit_char(d: nat) -> char {
    if d == 0 { '0' }
    else if d == 1 { '1' }
    else if d == 2 { '2' }
    else if d == 3 { '3' }
    else if d == 4 { '4' }
    else if d == 5 { '5' }
    else if d == 6 { '6' }
    else if d == 7 { '7' }
    else if d == 8 { '8' }
    else { '9' }
}

/// A natural number in decimal, most significant digit first, no leading zeros.
pub open spec fn decimal(n: nat) -> Seq<char>
    decreases n,
{
    if n < 10 {
        seq![digit_char(n)]
    } else {
        decimal(n / 10).push(digit_char(n % 10))
    }
}

pub(crate) fn digit_text(d: u64) -> (s: &'static str)
    requires
        d < 10,
    ensures
        s@ == seq![digit_char(d as nat)],
{
    match d {
        0 => { proof { reveal_strlit("0"); } "0" },
        1 => { proof { reveal_strlit("1"); } "1" },
        2 => { proof { reveal_strlit("2"); } "2" },
        3 => { proof { reveal_strlit("3"); } "3" },
        4 => { proof { reveal_strlit("4"); } "4" },
        5 => { proof { reveal_strlit("5"); } "5" },
        6 => { proof { reveal_strlit("6"); } "6" },
        7 => { proof { reveal_strlit("7"); } "7" },
        8 => { proof { reveal_strlit("8"); } "8" },
        _ => { proof { reveal_strlit("9"); } "9" },
    }
}

/// `n` written out in decimal, as `u64`'s `Display` writes it.
pub fn decimal_text(n: u64) -> (s: String)
    ensures
        s@ == decimal(n as nat),
    decreases n,
{
    if n < 10 {
        String::from_str(digit_text(n))
    } else {
        let mut s = decimal_text(n / 10);
        s.append(digit_text(n % 10));
        s
    }
}


/// A hexadecimal digit in upper case.
pub open spec fn hex_digit(d: nat) -> char {
    if d < 10 { digit_char(d) }
    else if d == 10 { 'A' }
    else if d == 11 { 'B' }
    else if d == 12 { 'C' }
    else if d == 13 { 'D' }
    else if d == 14 { 'E' }
    else { 'F' }
}

/// A code point below U+10000 as four upper-case hexadecimal digits.
pub open spec fn hex4(v: nat) -> Seq<char> {
    seq![hex_digit((v / 4096) % 16), hex_digit((v / 256) % 16), hex_digit((v / 16) % 16), hex_digit(v % 16)]
}

/// The bidirectional formatting characters: U+061C, U+200E..U+200F,
/// U+202A..U+202E and U+2066..U+2069.
pub open spec fn is_bidi_formatting(c: char) -> bool {
    let v = c as int;
    ||| v == 0x061C
    ||| 0x200E <= v <= 0x200F
    ||| 0x202A <= v <= 0x202E
    ||| 0x2066 <= v <= 0x2069
}

/// How one character of a name is shown: a backslash doubled, a bidirectional
/// formatting character as `\u{XXXX}`, anything else as itself.
pub open spec fn shown_char(c: char) -> Seq<char> {
    if c == '\\' {
        seq!['\\', '\\']
    } else if is_bidi_formatting(c) {
        seq!['\\', 'u', '{'] + hex4(c as nat) + seq!['}']
    } else {
        seq![c]
    }
}

/// A name as it is shown to a person, one character at a time.
pub open spec fn shown_name(s: Seq<char>) -> Seq<char>
    decreases s.len(),
{
    if s.len() == 0 {
        seq![]
    } else {
        shown_name(s.drop_last()) + shown_char(s.last())
    }
}

/// A name escaped for display.
///
/// Calls `slpc::display_name`, whose source doubles every backslash, writes
/// each of the seven bidirectional formatting characters as
/// `\u{XXXX}` with four upper-case hexadecimal digits, and leaves every other
/// character as it is. The contract says exactly that, over [`shown_name`].
#[verifier::external_body]
pub(crate) fn display_name(name: &str) -> (shown: String)
    ensures
        shown@ == shown_name(name@),
{
    slpc::display_name(name).into_owned()
}

/// Where the first `c` in `s` is, or `s.len()` where there is none.
pub open spec fn first_index(s: Seq<char>, c: char) -> nat
    decreases s.len(),
{
    if s.len() == 0 {
        0
    } else if s[0] == c {
        0
    } else {
        1 + first_index(s.drop_first(), c)
    }
}

/// The value the first pair named `name` carries, or the placeholder kept
/// with its braces where no pair is named so.
pub open spec fn value_for(name: Seq<char>, values: Seq<(Seq<char>, Seq<char>)>) -> Seq<char>
    decreases values.len(),
{
    if values.len() == 0 {
        seq!['{'] + name + seq!['}']
    } else if values[0].0 == name {
        values[0].1
    } else {
        value_for(name, values.drop_first())
    }
}

/// A template with every `{name}` placeholder replaced, in one pass from the
/// left: what is substituted is never scanned again, and an unclosed brace
/// ends the scan with the rest kept as it is.
pub open spec fn filled(template: Seq<char>, values: Seq<(Seq<char>, Seq<char>)>) -> Seq<char>
    decreases template.len(),
{
    let open = first_index(template, '{');
    if open >= template.len() {
        template
    } else {
        let after = template.skip(open + 1int);
        let close = first_index(after, '}');
        if close >= after.len() {
            template
        } else {
            template.take(open as int) + value_for(after.take(close as int), values)
                + filled(after.skip(close + 1int), values)
        }
    }
}

/// The pairs of a fill, as character sequences.
pub open spec fn pairs_view(values: Seq<(String, String)>) -> Seq<(Seq<char>, Seq<char>)> {
    values.map_values(|p: (String, String)| (p.0@, p.1@))
}

/// A message with its placeholders filled.
///
/// Calls `potext::fill`, whose source scans the template once from the left:
/// text up to the first `{` is kept, an unclosed `{` keeps the rest as it is,
/// and `{name}` becomes the value of the first pair whose key is `name`, or
/// stays `{name}` where no key is. The contract is that scan, over [`filled`].
#[verifier::external_body]
pub(crate) fn fill(template: &str, values: &Vec<(String, String)>) -> (out: String)
    ensures
        out@ == filled(template@, pairs_view(values@)),
{
    let pairs: Vec<(&str, &str)> = values.iter().map(|(k, v)| (k.as_str(), v.as_str())).collect();
    potext::fill(template, &pairs)
}


/// `c` first occurs in `a + seq![c] + b` just after `a`, where `a` has no `c`.
pub proof fn lemma_first_index_after(a: Seq<char>, c: char, b: Seq<char>)
    requires
        !a.contains(c),
    ensures
        first_index(a + seq![c] + b, c) == a.len(),
    decreases a.len(),
{
    let s = a + seq![c] + b;
    if a.len() > 0 {
        assert(s[0] == a[0]);
        assert(s.drop_first() =~= a.drop_first() + seq![c] + b);
        assert(!a.drop_first().contains(c)) by {
            if a.drop_first().contains(c) {
                let i = choose|i: int| 0 <= i < a.drop_first().len() && a.drop_first()[i] == c;
                assert(a[i + 1] == c);
            }
        }
        lemma_first_index_after(a.drop_first(), c, b);
    } else {
        assert(s[0] == c);
    }
}

/// `c` does not occur in `a` at all: its first index is the length.
pub proof fn lemma_first_index_absent(a: Seq<char>, c: char)
    requires
        !a.contains(c),
    ensures
        first_index(a, c) == a.len(),
    decreases a.len(),
{
    if a.len() > 0 {
        assert(a[0] != c);
        assert(!a.drop_first().contains(c)) by {
            if a.drop_first().contains(c) {
                let i = choose|i: int| 0 <= i < a.drop_first().len() && a.drop_first()[i] == c;
                assert(a[i + 1] == c);
            }
        }
        lemma_first_index_absent(a.drop_first(), c);
    }
}

/// Text with no placeholder in it fills to itself.
pub proof fn lemma_filled_plain(a: Seq<char>, values: Seq<(Seq<char>, Seq<char>)>)
    requires
        !a.contains('{'),
    ensures
        filled(a, values) == a,
{
    lemma_first_index_absent(a, '{');
}

/// Filling takes the text before the first placeholder as it is, puts the
/// placeholder's value in its place, and goes on with the rest: what was put
/// in is never scanned again.
pub proof fn lemma_filled_step(
    a: Seq<char>,
    name: Seq<char>,
    rest: Seq<char>,
    values: Seq<(Seq<char>, Seq<char>)>,
)
    requires
        !a.contains('{'),
        !name.contains('}'),
    ensures
        filled(a + seq!['{'] + name + seq!['}'] + rest, values) == a + value_for(name, values) + filled(rest, values),
{
    let t = a + seq!['{'] + name + seq!['}'] + rest;
    assert(t =~= a + seq!['{'] + (name + seq!['}'] + rest));
    lemma_first_index_after(a, '{', name + seq!['}'] + rest);
    let after = t.skip(a.len() + 1int);
    assert(after =~= name + seq!['}'] + rest);
    lemma_first_index_after(name, '}', rest);
    assert(t.take(a.len() as int) =~= a);
    assert(after.take(name.len() as int) =~= name);
    assert(after.skip(name.len() + 1int) =~= rest);
}

/// A name with no backslash and no bidirectional formatting character is
/// shown as it is.
pub proof fn lemma_plain_name_shown_as_is(s: Seq<char>)
    requires
        forall|i: int| 0 <= i < s.len() ==> s[i] != '\\' && !is_bidi_formatting(#[trigger] s[i]),
    ensures
        shown_name(s) == s,
    decreases s.len(),
{
    if s.len() > 0 {
        let init = s.drop_last();
        assert forall|i: int| 0 <= i < init.len() implies init[i] != '\\' && !is_bidi_formatting(#[trigger] init[i]) by {
            assert(init[i] == s[i]);
        }
        lemma_plain_name_shown_as_is(init);
        assert(s[s.len() - 1] == s.last());
        assert(s =~= init + seq![s.last()]);
    }
}

proof fn lemma_hex_digit_plain(d: nat)
    ensures
        !is_bidi_formatting(hex_digit(d)),
        hex_digit(d) != '\\',
{
}

/// However a name is spelled, what is shown of it carries no bidirectional
/// formatting character: none can reorder the line it is drawn on.
pub proof fn lemma_shown_name_has_no_bidi(s: Seq<char>)
    ensures
        forall|i: int| 0 <= i < shown_name(s).len() ==> !is_bidi_formatting(#[trigger] shown_name(s)[i]),
    decreases s.len(),
{
    if s.len() > 0 {
        let init = s.drop_last();
        lemma_shown_name_has_no_bidi(init);
        let c = s.last();
        let tail = shown_char(c);
        let v = c as nat;
        lemma_hex_digit_plain((v / 4096) % 16);
        lemma_hex_digit_plain((v / 256) % 16);
        lemma_hex_digit_plain((v / 16) % 16);
        lemma_hex_digit_plain(v % 16);
        assert forall|i: int| 0 <= i < tail.len() implies !is_bidi_formatting(#[trigger] tail[i]) by {
            if c != '\\' && is_bidi_formatting(c) {
                assert(tail =~= seq!['\\', 'u', '{', hex_digit((v / 4096) % 16), hex_digit((v / 256) % 16),
                    hex_digit((v / 16) % 16), hex_digit(v % 16), '}']);
            }
        }
        let whole = shown_name(s);
        assert(whole == shown_name(init) + tail);
        assert forall|i: int| 0 <= i < whole.len() implies !is_bidi_formatting(#[trigger] whole[i]) by {
            if i < shown_name(init).len() {
                assert(whole[i] == shown_name(init)[i]);
            } else {
                assert(whole[i] == tail[i - shown_name(init).len()]);
            }
        }
    }
}


/// What is shown of a name, read from the front: its first character's
/// rendering, then the rest.
pub proof fn lemma_shown_name_front(s: Seq<char>)
    requires
        s.len() > 0,
    ensures
        shown_name(s) == shown_char(s[0]) + shown_name(s.drop_first()),
    decreases s.len(),
{
    if s.len() == 1 {
        assert(s.drop_last() =~= Seq::<char>::empty());
        assert(s.drop_first() =~= Seq::<char>::empty());
        assert(shown_name(s.drop_first()) =~= Seq::<char>::empty());
        assert(shown_name(s) =~= shown_char(s[0]));
    } else {
        let init = s.drop_last();
        lemma_shown_name_front(init);
        assert(init.drop_first() =~= s.drop_first().drop_last());
        assert(s.drop_first().last() == s.last());
        assert(shown_name(s.drop_first()) == shown_name(init.drop_first()) + shown_char(s.last()));
        assert(shown_name(s) =~= shown_char(s[0]) + shown_name(s.drop_first()));
    }
}

proof fn lemma_shown_char_shape(c: char)
    ensures
        shown_char(c).len() >= 1,
        c != '\\' && !is_bidi_formatting(c) ==> shown_char(c) == seq![c],
        c == '\\' ==> shown_char(c).len() == 2 && shown_char(c)[0] == '\\' && shown_char(c)[1] == '\\',
        is_bidi_formatting(c) ==> shown_char(c).len() == 8 && shown_char(c)[0] == '\\' && shown_char(c)[1] == 'u',
{
    if is_bidi_formatting(c) {
        assert(c != '\\');
    }
}

proof fn lemma_hex_digit_injective(a: nat, b: nat)
    requires
        a < 16,
        b < 16,
        hex_digit(a) == hex_digit(b),
    ensures
        a == b,
{
}

proof fn lemma_hex4_injective(a: nat, b: nat)
    requires
        a < 65536,
        b < 65536,
        hex4(a) == hex4(b),
    ensures
        a == b,
{
    assert(hex4(a)[0] == hex4(b)[0]);
    assert(hex4(a)[1] == hex4(b)[1]);
    assert(hex4(a)[2] == hex4(b)[2]);
    assert(hex4(a)[3] == hex4(b)[3]);
    lemma_hex_digit_injective((a / 4096) % 16, (b / 4096) % 16);
    lemma_hex_digit_injective((a / 256) % 16, (b / 256) % 16);
    lemma_hex_digit_injective((a / 16) % 16, (b / 16) % 16);
    lemma_hex_digit_injective(a % 16, b % 16);
    assert(a == 4096 * ((a / 4096) % 16) + 256 * ((a / 256) % 16) + 16 * ((a / 16) % 16) + a % 16) by (nonlinear_arith)
        requires
            a < 65536,
    ;
    assert(b == 4096 * ((b / 4096) % 16) + 256 * ((b / 256) % 16) + 16 * ((b / 16) % 16) + b % 16) by (nonlinear_arith)
        requires
            b < 65536,
    ;
}

/// Two renderings that begin alike began with the same character.
proof fn lemma_shown_char_prefix(a: char, b: char, x: Seq<char>, y: Seq<char>)
    requires
        shown_char(a) + x == shown_char(b) + y,
    ensures
        a == b,
        x == y,
{
    lemma_shown_char_shape(a);
    lemma_shown_char_shape(b);
    let sa = shown_char(a);
    let sb = shown_char(b);
    let whole = sa + x;
    assert(whole[0] == sa[0] && whole[0] == sb[0]);
    if sa.len() > 1 && sb.len() > 1 {
        assert(whole[1] == sa[1] && whole[1] == sb[1]);
    }
    if is_bidi_formatting(a) && is_bidi_formatting(b) {
        let ha = hex4(a as nat);
        let hb = hex4(b as nat);
        assert forall|i: int| 0 <= i < 4 implies ha[i] == hb[i] by {
            assert(whole[3 + i] == sa[3 + i]);
            assert(whole[3 + i] == sb[3 + i]);
        }
        assert(ha =~= hb);
        lemma_hex4_injective(a as nat, b as nat);
    }
    assert(a == b);
    assert(x =~= whole.skip(sa.len() as int));
    assert(y =~= whole.skip(sb.len() as int));
}

/// What is shown of a name gives the name back: two different names are
/// never shown alike, so a name that spells an escape is not the escape.
pub proof fn lemma_shown_name_injective(a: Seq<char>, b: Seq<char>)
    requires
        shown_name(a) == shown_name(b),
    ensures
        a == b,
    decreases a.len() + b.len(),
{
    if a.len() == 0 || b.len() == 0 {
        if a.len() > 0 {
            lemma_shown_name_front(a);
            lemma_shown_char_shape(a[0]);
        } else if b.len() > 0 {
            lemma_shown_name_front(b);
            lemma_shown_char_shape(b[0]);
        }
        assert(a =~= b);
    } else {
        lemma_shown_name_front(a);
        lemma_shown_name_front(b);
        lemma_shown_char_prefix(a[0], b[0], shown_name(a.drop_first()), shown_name(b.drop_first()));
        lemma_shown_name_injective(a.drop_first(), b.drop_first());
        assert(a =~= seq![a[0]] + a.drop_first());
        assert(b =~= seq![b[0]] + b.drop_first());
    }
}

} // verus!

verus! {

/// The number a string of decimal figures stands for, most significant first.
pub open spec fn read_decimal(s: Seq<char>) -> int
    decreases s.len(),
{
    if s.len() == 0 {
        0
    } else {
        read_decimal(s.drop_last()) * 10 + (s.last() as int - '0' as int)
    }
}

proof fn lemma_digit_value(d: nat)
    requires
        d < 10,
    ensures
        digit_char(d) as int - '0' as int == d,
{
    assert('0' as int == 48);
    if d == 0 {
    } else if d == 1 {
        assert('1' as int == 49);
    } else if d == 2 {
        assert('2' as int == 50);
    } else if d == 3 {
        assert('3' as int == 51);
    } else if d == 4 {
        assert('4' as int == 52);
    } else if d == 5 {
        assert('5' as int == 53);
    } else if d == 6 {
        assert('6' as int == 54);
    } else if d == 7 {
        assert('7' as int == 55);
    } else if d == 8 {
        assert('8' as int == 56);
    } else {
        assert('9' as int == 57);
    }
}

/// A number written in decimal is figures alone, at least one, with no
/// leading zero but for zero itself, and reads back as the number it was.
pub proof fn decimal_reads_back(n: nat)
    ensures
        decimal(n).len() >= 1,
        forall|i: int| 0 <= i < decimal(n).len() ==> '0' <= #[trigger] decimal(n)[i] <= '9',
        decimal(n)[0] == '0' ==> n == 0,
        read_decimal(decimal(n)) == n,
    decreases n,
{
    if n < 10 {
        lemma_digit_value(n);
        assert(decimal(n) == seq![digit_char(n)]);
        assert(decimal(n).drop_last() =~= Seq::<char>::empty());
        assert(read_decimal(Seq::<char>::empty()) == 0);
        assert(decimal(n).last() == digit_char(n));
    } else {
        decimal_reads_back(n / 10);
        lemma_digit_value(n % 10);
        let d = decimal(n);
        assert(d == decimal(n / 10).push(digit_char(n % 10)));
        assert(d.drop_last() =~= decimal(n / 10));
        assert(d[0] == decimal(n / 10)[0]);
        assert(d.last() == digit_char(n % 10));
        assert(read_decimal(d) == read_decimal(decimal(n / 10)) * 10 + (digit_char(n % 10) as int - '0' as int));
        assert((n / 10) * 10 + n % 10 == n);
        assert forall|i: int| 0 <= i < d.len() implies '0' <= #[trigger] d[i] <= '9' by {
            if i < d.len() - 1 {
                assert(d[i] == decimal(n / 10)[i]);
            }
        }
    }
}

} // verus!

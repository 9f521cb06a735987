//! What one container says about itself.
//!
//! A row in the table is what the query projected. This is everything else the
//! container holds, read when somebody selects it and not before. The reading
//! itself is the caller's: what comes back from it is handed here as plain
//! values, and this is what they become.

use std::path::PathBuf;

use slpc::toml_edit::DocumentMut;
use vstd::prelude::*;
use vstd::string::*;

use crate::messages::{plural, Messages};
use crate::text::{
    decimal, decimal_text, digit_char, digit_text, display_name, fill, filled, lemma_filled_plain,
    lemma_filled_step, pairs_view, shown_name, value_for,
};

verus! {

/// A flyleaf document, carried through unread.
#[verifier::external_type_specification]
#[verifier::external_body]
pub struct ExDocumentMut(DocumentMut);

/// A path on disk, carried through unread.
#[verifier::external_type_specification]
#[verifier::external_body]
pub struct ExPathBuf(PathBuf);

/// One container, opened.
pub struct Detail {
    /// Where it is, absolutely, which is what the content file is handed over from.
    pub path: PathBuf,
    /// Its path as the row named it, relative to the `from` root.
    pub relative: String,
    /// What it turned out to be.
    pub outcome: Outcome,
}

/// What opening a container produced.
///
/// `Unreadable` is for not being able to read the bytes at all, which is a
/// fact about the path rather than about a container.
pub enum Outcome {
    /// Why it could not be read.
    Unreadable(String),
    /// It was read.
    Read(Box<Contents>),
}

/// A container that was read.
pub struct Contents {
    /// The flyleaf, as the tree draws it. Nothing here writes it back.
    pub flyleaf: DocumentMut,
    /// The content file, as the card states it.
    pub content: ContentFile,
}

/// The content file, as the card states it.
pub struct ContentFile {
    /// The member `content.file` names, escaped for display.
    pub name: String,
    /// Its length uncompressed, read from the central directory.
    pub size: u64,
    /// Why this build cannot decode the content file, where it cannot.
    pub unreadable: Option<String>,
}

/// 1024 to the power `k`, for the five units a size is scaled to.
pub open spec fn unit_size(k: nat) -> nat {
    if k == 1 { 1024 }
    else if k == 2 { 1048576 }
    else if k == 3 { 1073741824 }
    else if k == 4 { 1099511627776 }
    else { 1125899906842624 }
}

/// The unit of `unit_size(k)`.
pub open spec fn unit_name(k: nat) -> Seq<char> {
    if k == 1 { "KiB"@ }
    else if k == 2 { "MiB"@ }
    else if k == 3 { "GiB"@ }
    else if k == 4 { "TiB"@ }
    else { "PiB"@ }
}

/// How many times a size of `m` bytes is divided by 1024: once, and again
/// while what is left is 1024 or more, up to pebibytes.
pub open spec fn scale_steps(m: nat) -> nat {
    if m < unit_size(2) { 1 }
    else if m < unit_size(3) { 2 }
    else if m < unit_size(4) { 3 }
    else if m < unit_size(5) { 4 }
    else { 5 }
}

/// The number of binary digits in `n`.
pub open spec fn bit_length(n: nat) -> nat
    decreases n,
{
    if n == 0 { 0 } else { 1 + bit_length(n / 2) }
}

/// Two to the power `e`.
pub open spec fn two_to(e: nat) -> nat
    decreases e,
{
    if e == 0 { 1 } else { 2 * two_to((e - 1) as nat) }
}

/// How many low bits a double cannot hold of `n`: none up to 53 significant bits.
pub open spec fn dropped_bits(n: nat) -> nat {
    if bit_length(n) <= 53 { 0 } else { (bit_length(n) - 53) as nat }
}

/// The value `n` takes as a 64-bit float: rounded to 53 significant bits, a
/// tie going to the even neighbour.
pub open spec fn as_double(n: nat) -> nat {
    let p = two_to(dropped_bits(n));
    let q = n / p;
    let r = n % p;
    let kept = if 2 * r > p || (2 * r == p && q % 2 == 1) { q + 1 } else { q };
    kept * p
}

/// `m / d` in tenths, rounded to the nearest tenth, a tie going to the even one.
pub open spec fn tenths(m: nat, d: nat) -> nat {
    let q = (10 * m) / d;
    let r = (10 * m) % d;
    if 2 * r > d || (2 * r == d && q % 2 == 1) { q + 1 } else { q }
}

/// A count of tenths with one decimal place, as `{:.1}` writes it.
pub open spec fn tenths_text(t: nat) -> Seq<char> {
    decimal(t / 10) + seq!['.'] + seq![digit_char(t % 10)]
}

/// The size line for `n` bytes.
///
/// Under a kibibyte, the count alone. From a kibibyte up, the size scaled to
/// the largest unit that leaves it under 1024 (pebibytes at most), to one
/// decimal place, with the exact count beside it.
pub open spec fn size_line_of(m: Messages, n: nat) -> Seq<char> {
    if n < 1024 {
        filled(plural(m.byte_one@, m.byte_other@, n), seq![("n"@, decimal(n))])
    } else {
        let v = as_double(n);
        let k = scale_steps(v);
        filled(
            m.size_scaled@,
            seq![
                ("size"@, tenths_text(tenths(v, unit_size(k)))),
                ("unit"@, unit_name(k)),
                ("n"@, decimal(n)),
            ],
        )
    }
}


proof fn lemma_two_to_positive(e: nat)
    ensures
        two_to(e) >= 1,
    decreases e,
{
    if e > 0 {
        lemma_two_to_positive((e - 1) as nat);
    }
}

proof fn lemma_two_to_monotone(a: nat, b: nat)
    requires
        a <= b,
    ensures
        two_to(a) <= two_to(b),
    decreases b,
{
    if a < b {
        lemma_two_to_monotone(a, (b - 1) as nat);
        lemma_two_to_positive((b - 1) as nat);
    }
}

proof fn lemma_bit_length_at_most(n: nat, e: nat)
    requires
        n < two_to(e),
    ensures
        bit_length(n) <= e,
    decreases e,
{
    if n > 0 && e > 0 {
        lemma_bit_length_at_most(n / 2, (e - 1) as nat);
    }
}

proof fn lemma_as_double_exact(n: nat)
    requires
        bit_length(n) <= 53,
    ensures
        as_double(n) == n,
{
    assert(two_to(0) == 1);
    assert(n / 1 == n && n % 1 == 0 && n * 1 == n) by (nonlinear_arith);
}

proof fn lemma_as_double_rounded(n: nat, p: nat, q: nat, r: nat, kept: nat)
    requires
        p == two_to(dropped_bits(n)),
        q == n / p,
        r == n % p,
        kept == (if 2 * r > p || (2 * r == p && q % 2 == 1) { q + 1 } else { q }),
    ensures
        as_double(n) == kept * p,
{
}

/// The value `n as f64` holds, as an integer.
#[verifier::rlimit(40)]
fn nearest_double(n: u64) -> (m: u128)
    ensures
        m == as_double(n as nat),
        m <= n + 2048,
{
    proof {
        assert(two_to(64) == 0x1_0000_0000_0000_0000) by {
            reveal_with_fuel(two_to, 65);
        }
        lemma_bit_length_at_most(n as nat, 64);
    }
    let mut len: u64 = 0;
    let mut x: u64 = n;
    while x > 0
        invariant
            len + bit_length(x as nat) == bit_length(n as nat),
            bit_length(n as nat) <= 64,
        decreases x,
    {
        x = x / 2;
        len = len + 1;
    }
    if len <= 53 {
        proof {
            lemma_as_double_exact(n as nat);
        }
        return n as u128;
    }
    let s: u64 = len - 53;
    proof {
        assert(two_to(11) == 2048) by {
            reveal_with_fuel(two_to, 12);
        }
    }
    let mut p: u64 = 1;
    let mut i: u64 = 0;
    while i < s
        invariant
            p == two_to(i as nat),
            i <= s,
            s <= 11,
            two_to(11) == 2048,
        decreases s - i,
    {
        proof {
            lemma_two_to_monotone((i + 1) as nat, 11);
        }
        p = p * 2;
        i = i + 1;
    }
    proof {
        lemma_two_to_monotone(1, s as nat);
        lemma_two_to_monotone(s as nat, 11);
        assert(two_to(1) == 2);
    }
    assert(p == two_to(dropped_bits(n as nat)));
    let q: u64 = n / p;
    let r: u64 = n % p;
    assert(q * p <= n) by (nonlinear_arith)
        requires
            q == n / p,
            p > 0,
    ;
    assert(q < 0x8000_0000_0000_0000) by (nonlinear_arith)
        requires
            q == n / p,
            p >= 2,
            n < 0x1_0000_0000_0000_0000,
    ;
    let kept: u64 = if 2 * r > p || (2 * r == p && q % 2 == 1) { q + 1 } else { q };
    assert(kept * p <= n + p) by (nonlinear_arith)
        requires
            kept <= q + 1,
            q * p <= n,
            p > 0,
    ;
    proof {
        lemma_as_double_rounded(n as nat, p as nat, q as nat, r as nat, kept as nat);
    }
    (kept as u128) * (p as u128)
}


/// `m / d` in tenths, rounded to the nearest, a tie going to the even tenth.
fn tenths_of(m: u128, d: u128) -> (t: u64)
    requires
        1024 <= d <= 1125899906842624,
        m <= 0x1_0000_0000_0000_0800,
    ensures
        t == tenths(m as nat, d as nat),
{
    let ten: u128 = 10 * m;
    let q: u128 = ten / d;
    let r: u128 = ten % d;
    assert(q < 0x1000_0000_0000_0000) by (nonlinear_arith)
        requires
            q == ten / d,
            d >= 1024,
            ten <= 0xA_0000_0000_0000_5000,
    ;
    assert(r < d) by (nonlinear_arith)
        requires
            r == ten % d,
            d >= 1024,
    ;
    let t: u128 = if 2 * r > d || (2 * r == d && q % 2 == 1) { q + 1 } else { q };
    t as u64
}

/// How far a size of `m` bytes is scaled, the divisor that is, and its unit.
fn scale(m: u128) -> (s: (u64, u128, &'static str))
    ensures
        s.0 == scale_steps(m as nat),
        s.1 == unit_size(s.0 as nat),
        s.2@ == unit_name(s.0 as nat),
{
    if m < 1048576 {
        (1, 1024, "KiB")
    } else if m < 1073741824 {
        (2, 1048576, "MiB")
    } else if m < 1099511627776 {
        (3, 1073741824, "GiB")
    } else if m < 1125899906842624 {
        (4, 1099511627776, "TiB")
    } else {
        (5, 1125899906842624, "PiB")
    }
}

impl ContentFile {
    /// Whether this build can decode the content file.
    ///
    /// Not a promise that handing it over will succeed: truncated bytes, a
    /// failed checksum and an i/o error are all still ahead. It is enough to
    /// decide what to offer.
    pub fn can_be_opened(&self) -> (b: bool)
        ensures
            b == (self.unreadable is None),
    {
        self.unreadable.is_none()
    }

    /// The size, stated plainly, in English.
    ///
    /// The exact count stays beside the scaled one: a card that only said
    /// "1.2 MiB" would have rounded away the number somebody opened the
    /// container to read.
    pub fn size_line(&self) -> (line: String)
        ensures
            forall|m: Messages| m.is_english() ==> line@ == size_line_of(m, self.size as nat),
    {
        let english = Messages::english();
        self.size_line_in(&english)
    }

    /// The size, stated plainly, in the language `messages` is written in.
    pub fn size_line_in(&self, messages: &Messages) -> (line: String)
        ensures
            line@ == size_line_of(*messages, self.size as nat),
    {
        let n = self.size;
        let mut values: Vec<(String, String)> = Vec::new();
        if n < 1024 {
            values.push((String::from_str("n"), decimal_text(n)));
            assert(pairs_view(values@) =~= seq![("n"@, decimal(n as nat))]);
            let template = if n == 1 {
                messages.byte_one.as_str()
            } else {
                messages.byte_other.as_str()
            };
            return fill(template, &values);
        }
        let m = nearest_double(n);
        let (k, d, unit) = scale(m);
        let t = tenths_of(m, d);
        let mut size = decimal_text(t / 10);
        proof {
            reveal_strlit(".");
        }
        size.append(".");
        size.append(digit_text(t % 10));
        assert("."@ =~= seq!['.']);
        assert(size@ =~= tenths_text(t as nat));
        values.push((String::from_str("size"), size));
        values.push((String::from_str("unit"), String::from_str(unit)));
        values.push((String::from_str("n"), decimal_text(n)));
        assert(pairs_view(values@) =~= seq![
            ("size"@, tenths_text(tenths(m as nat, d as nat))),
            ("unit"@, unit_name(k as nat)),
            ("n"@, decimal(n as nat)),
        ]);
        fill(messages.size_scaled.as_str(), &values)
    }
}


impl Contents {
    /// What the pane shows of a container that was read: its flyleaf, and its
    /// content file as the card states it.
    ///
    /// `content_name` is the member `content.file` names, as the container
    /// spells it; it is escaped here. `content_size` is what the central
    /// directory says, where it says anything: one that will not say is not a
    /// reason to refuse the container, and the card says zero. `unreadable` is
    /// why this build cannot decode the content file, where it cannot.
    pub fn of(
        flyleaf: DocumentMut,
        content_name: &str,
        content_size: Option<u64>,
        unreadable: Option<String>,
    ) -> (c: Contents)
        ensures
            c.flyleaf == flyleaf,
            c.content.name@ == shown_name(content_name@),
            c.content.size == (match content_size {
                Some(size) => size,
                None => 0,
            }),
            c.content.unreadable == unreadable,
    {
        Contents {
            flyleaf,
            content: ContentFile {
                name: display_name(content_name),
                size: content_size.unwrap_or(0),
                unreadable,
            },
        }
    }
}

impl Detail {
    /// One container as the pane holds it, from what opening it produced.
    ///
    /// `path` is where the container is, `relative` its path as the row named
    /// it, and `opened` what reading it gave: its contents, or why it could not
    /// be read. Every way this can go wrong is a state the pane renders, so
    /// there is no error of its own.
    pub fn open(path: PathBuf, relative: &str, opened: Result<Contents, String>) -> (d: Detail)
        ensures
            d.path == path,
            d.relative@ == relative@,
            match opened {
                Ok(contents) => d.outcome == Outcome::Read(Box::new(contents)),
                Err(why) => d.outcome == Outcome::Unreadable(why),
            },
    {
        let outcome = match opened {
            Ok(contents) => Outcome::Read(Box::new(contents)),
            Err(why) => Outcome::Unreadable(why),
        };
        Detail { path, relative: relative.to_owned(), outcome }
    }

    /// The content file, where there is one to hand over.
    pub fn content(&self) -> (c: Option<&ContentFile>)
        ensures
            match self.outcome {
                Outcome::Unreadable(_) => c is None,
                Outcome::Read(contents) => c == Some(&contents.content),
            },
    {
        match &self.outcome {
            Outcome::Unreadable(_) => None,
            Outcome::Read(contents) => Some(&contents.content),
        }
    }
}

} // verus!

verus! {

/// Under a kibibyte the English line is the count and the word alone: a
/// content file of 900 bytes reads "900 bytes" and not "0.9 KiB".
pub proof fn a_small_size_is_stated_in_bytes_alone(m: Messages, n: nat)
    requires
        m.is_english(),
        n < 1024,
    ensures
        size_line_of(m, n) == decimal(n) + (if n == 1 { " byte"@ } else { " bytes"@ }),
{
    reveal_strlit("{n} byte");
    reveal_strlit("{n} bytes");
    reveal_strlit(" byte");
    reveal_strlit(" bytes");
    reveal_strlit("n");
    let values = seq![("n"@, decimal(n))];
    let word = if n == 1 { " byte"@ } else { " bytes"@ };
    let template = plural(m.byte_one@, m.byte_other@, n);
    assert(template =~= Seq::<char>::empty() + seq!['{'] + "n"@ + seq!['}'] + word);
    assert(!"n"@.contains('}'));
    assert(!word.contains('{'));
    assert(!Seq::<char>::empty().contains('{'));
    lemma_filled_step(Seq::<char>::empty(), "n"@, word, values);
    lemma_filled_plain(word, values);
    assert(value_for("n"@, values) == decimal(n));
    assert(size_line_of(m, n) =~= decimal(n) + word);
}

/// From a kibibyte up, the English line is the scaled size, its unit, and
/// the exact count beside them: the number somebody opened the container to
/// read is never rounded away.
pub proof fn a_scaled_size_still_states_the_bytes(m: Messages, n: nat)
    requires
        m.is_english(),
        n >= 1024,
    ensures
        ({
            let v = as_double(n);
            let k = scale_steps(v);
            size_line_of(m, n) == tenths_text(tenths(v, unit_size(k))) + " "@ + unit_name(k) + " ("@ + decimal(n)
                + " bytes)"@
        }),
{
    reveal_strlit("{size} {unit} ({n} bytes)");
    reveal_strlit("size");
    reveal_strlit("unit");
    reveal_strlit("n");
    reveal_strlit(" ");
    reveal_strlit(" (");
    reveal_strlit(" bytes)");
    let v = as_double(n);
    let k = scale_steps(v);
    let size = tenths_text(tenths(v, unit_size(k)));
    let values = seq![("size"@, size), ("unit"@, unit_name(k)), ("n"@, decimal(n))];
    let open = seq!['{'];
    let close = seq!['}'];
    let empty = Seq::<char>::empty();
    let last = " bytes)"@;
    let third = " ("@ + open + "n"@ + close + last;
    let second = " "@ + open + "unit"@ + close + third;
    assert(m.size_scaled@ =~= empty + open + "size"@ + close + second);
    assert(!empty.contains('{'));
    assert(!" "@.contains('{'));
    assert(!" ("@.contains('{'));
    assert(!last.contains('{'));
    assert(!"size"@.contains('}'));
    assert(!"unit"@.contains('}'));
    assert(!"n"@.contains('}'));
    lemma_filled_step(empty, "size"@, second, values);
    lemma_filled_step(" "@, "unit"@, third, values);
    lemma_filled_step(" ("@, "n"@, last, values);
    lemma_filled_plain(last, values);
    assert("size"@[0] != "unit"@[0]);
    assert("size"@ != "n"@);
    assert("unit"@ != "n"@);
    assert(values.drop_first() =~= seq![("unit"@, unit_name(k)), ("n"@, decimal(n))]);
    assert(values.drop_first().drop_first() =~= seq![("n"@, decimal(n))]);
    assert(value_for("size"@, values) == size);
    assert(values[0].0 != "unit"@);
    assert(value_for("unit"@, values) == value_for("unit"@, values.drop_first()));
    assert(value_for("unit"@, values) == unit_name(k));
    assert(values[0].0 != "n"@);
    assert(values.drop_first()[0].0 != "n"@);
    assert(value_for("n"@, values) == value_for("n"@, values.drop_first()));
    assert(value_for("n"@, values.drop_first()) == value_for("n"@, values.drop_first().drop_first()));
    assert(value_for("n"@, values) == decimal(n));
    assert(size_line_of(m, n) =~= size + " "@ + unit_name(k) + " ("@ + decimal(n) + last);
}

} // verus!

verus! {

/// The unit a size is stated in leaves it at one or more and, short of
/// pebibytes, under 1024: a gibibyte is never four figures of mebibytes.
pub proof fn the_unit_leaves_the_size_under_1024(v: nat)
    requires
        v >= 1024,
    ensures
        unit_size(scale_steps(v)) <= v,
        scale_steps(v) < 5 ==> v < 1024 * unit_size(scale_steps(v)),
{
}

/// A size up to 2^53 bytes is scaled from its exact value: nothing is
/// rounded before the one decimal place the line shows.
pub proof fn a_size_a_double_holds_is_exact(n: nat)
    requires
        n < 0x20_0000_0000_0000,
    ensures
        as_double(n) == n,
{
    assert(two_to(53) == 0x20_0000_0000_0000) by {
        reveal_with_fuel(two_to, 54);
    }
    lemma_bit_length_at_most(n, 53);
    lemma_as_double_exact(n);
}

} // verus!

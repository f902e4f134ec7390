//! Addresses as they are given on the command line.
//!
//! A bare port stands for that port on every interface. What any other text stands for is up to
//! its reading: either the text itself, or the socket address that it spells.
use vstd::prelude::*;
use vstd::utf8::*;

use crate::text;
use crate::wire;

verus! {

/// The port that a text spells: decimal digits, at least one, after at most one plus sign, for a
/// number that a port can have.
pub open spec fn port_of(s: Seq<char>) -> Option<u16> {
    let digits = if s.len() > 0 && s[0] == '+' {
        s.skip(1)
    } else {
        s
    };
    if digits.len() > 0 && text::all_digits(digits) && text::decimal_value(digits) <= u16::MAX {
        Some(text::decimal_value(digits) as u16)
    } else {
        None
    }
}

/// The address of a port on every interface.
pub open spec fn any_interface(port: u16) -> Seq<char> {
    "0.0.0.0:"@ + text::decimal(port as nat)
}

/// The address that a text stands for, given the reading that it has where it is no bare port.
pub open spec fn addr_of(
    s: Seq<char>,
    reading: Result<Seq<char>, Seq<char>>,
) -> Result<Seq<char>, Seq<char>> {
    match port_of(s) {
        Some(port) => Ok(any_interface(port)),
        None => reading,
    }
}

/// Every port, written as a decimal numeral, stands for that port on every interface, and so does
/// the numeral after a plus sign.
pub proof fn law_ports_are_read(port: u16, reading: Result<Seq<char>, Seq<char>>)
    ensures
        addr_of(text::decimal(port as nat), reading) == Ok::<Seq<char>, Seq<char>>(
            any_interface(port),
        ),
        addr_of(seq!['+'] + text::decimal(port as nat), reading) == Ok::<Seq<char>, Seq<char>>(
            any_interface(port),
        ),
{
    let digits = text::decimal(port as nat);
    text::law_decimal_reads_back(port as nat);
    assert(text::is_digit(digits[0]));
    assert((seq!['+'] + digits).skip(1) =~= digits);
}

/// Two ports never stand for the same address.
pub proof fn law_ports_are_told_apart(a: u16, b: u16)
    requires
        any_interface(a) == any_interface(b),
    ensures
        a == b,
{
    let prefix = "0.0.0.0:"@.len() as int;
    assert(any_interface(a).skip(prefix) =~= text::decimal(a as nat));
    assert(any_interface(b).skip(prefix) =~= text::decimal(b as nat));
    text::law_decimal_reads_back(a as nat);
    text::law_decimal_reads_back(b as nat);
}

/// The address of a port is itself no bare port, so that reading it once more leaves it to its
/// reading.
pub proof fn law_address_is_no_port(port: u16)
    ensures
        port_of(any_interface(port)) is None,
{
    reveal_strlit("0.0.0.0:");
    let s = any_interface(port);
    assert(s[1] == '.');
    assert(!text::is_digit(s[1]));
}

/// Whether a way to read the texts that are no bare ports is settled: what it gives is itself no
/// bare port, and reads as itself, and so does the address of every port.
pub open spec fn settled(read: spec_fn(Seq<char>) -> Result<Seq<char>, Seq<char>>) -> bool {
    &&& forall|s: Seq<char>|
        port_of(s) is None ==> (#[trigger] read(s) matches Ok(r) ==> port_of(r) is None && read(r)
            == Ok::<Seq<char>, Seq<char>>(r))
    &&& forall|port: u16|
        read(#[trigger] any_interface(port)) == Ok::<Seq<char>, Seq<char>>(any_interface(port))
}

/// With every settled way to read texts, an address is settled after one reading: a second one
/// changes nothing. What is no bare port has become what it reads as. (Whether the canonical form
/// of socket addresses is such a way is up to whoever makes that reading.)
pub proof fn law_settled_reading_settles_addresses(
    read: spec_fn(Seq<char>) -> Result<Seq<char>, Seq<char>>,
    s: Seq<char>,
    once: Seq<char>,
)
    requires
        settled(read),
        addr_of(s, read(s)) == Ok::<Seq<char>, Seq<char>>(once),
    ensures
        addr_of(once, read(once)) == Ok::<Seq<char>, Seq<char>>(once),
        read(once) == Ok::<Seq<char>, Seq<char>>(once),
        port_of(s) is None ==> read(s) == Ok::<Seq<char>, Seq<char>>(once),
{
    match port_of(s) {
        Some(port) => law_address_is_no_port(port),
        None => {},
    }
}

/// Taken as it stands, an address is settled after one reading: a second one changes nothing.
pub proof fn law_verbatim_reading_is_settled(s: Seq<char>, once: Seq<char>)
    requires
        addr_of(s, Ok(s)) == Ok::<Seq<char>, Seq<char>>(once),
    ensures
        addr_of(once, Ok(once)) == Ok::<Seq<char>, Seq<char>>(once),
{
    let read = |t: Seq<char>| Ok::<Seq<char>, Seq<char>>(t);
    assert(settled(read));
    law_settled_reading_settles_addresses(read, s, once);
}

/// The address of every port fits in a frame.
pub proof fn law_port_address_fits_a_frame(port: u16)
    ensures
        wire::fits_frame(any_interface(port)),
{
    let s = any_interface(port);
    reveal_strlit("0.0.0.0:");
    text::law_decimal_reads_back(port as nat);
    lemma_port_length(port);
    assert(is_ascii_chars(s)) by {
        assert forall|i: int| 0 <= i < s.len() implies (#[trigger] s[i] as nat) < 128 by {
            if i >= 8 {
                assert(s[i] == text::decimal(port as nat)[i - 8]);
                assert(text::is_digit(text::decimal(port as nat)[i - 8]));
            }
        }
    }
    is_ascii_chars_encode_utf8(s);
}

/// An address fits in a frame where the reading behind it does: a bare port's always does.
pub proof fn law_address_fits_a_frame(
    s: Seq<char>,
    reading: Result<Seq<char>, Seq<char>>,
    addr: Seq<char>,
)
    requires
        reading matches Ok(r) ==> wire::fits_frame(r),
        addr_of(s, reading) == Ok::<Seq<char>, Seq<char>>(addr),
    ensures
        wire::fits_frame(addr),
{
    match port_of(s) {
        Some(port) => law_port_address_fits_a_frame(port),
        None => {},
    }
}

/// The numeral of a port has at most five digits.
proof fn lemma_port_length(port: u16)
    ensures
        text::decimal(port as nat).len() <= 5,
{
    reveal_with_fuel(text::decimal, 6);
}

/// The port that a text spells, if it spells one.
pub fn parse_port(s: &str) -> (port: Option<u16>)
    ensures
        port == port_of(s@),
{
    let chars = text::characters(s);
    let start: usize = if chars.len() > 0 && chars[0] == '+' {
        1
    } else {
        0
    };
    let ghost digits = s@.skip(start as int);
    assert(start == 0 ==> digits =~= s@);
    if start == chars.len() {
        return None;
    }
    let mut value: u32 = 0;
    let mut i: usize = start;
    assert(digits.take(0) =~= Seq::empty());
    while i < chars.len()
        invariant
            chars@ == s@,
            start <= i <= chars@.len(),
            start < chars@.len(),
            start == if s@.len() > 0 && s@[0] == '+' {
                1int
            } else {
                0int
            },
            digits == s@.skip(start as int),
            start == 0 ==> digits == s@,
            text::all_digits(digits.take(i - start)),
            value == text::decimal_value(digits.take(i - start)),
            value <= u16::MAX,
        decreases chars@.len() - i,
    {
        let c = chars[i];
        let ghost k = i - start;
        assert(c == digits[k]);
        assert(digits.take(k + 1).drop_last() =~= digits.take(k));
        if c < '0' || '9' < c {
            assert(!text::is_digit(digits[k]));
            return None;
        }
        value = value * 10 + (c as u32 - '0' as u32);
        proof {
            text::lemma_decimal_value_grows(digits, k + 1);
        }
        if value > 0xffff {
            return None;
        }
        assert(text::all_digits(digits.take(k + 1))) by {
            assert forall|j: int| 0 <= j < k + 1 implies text::is_digit(
                #[trigger] digits.take(k + 1)[j],
            ) by {
                if j < k {
                    assert(digits.take(k)[j] == digits.take(k + 1)[j]);
                }
            }
        }
        i = i + 1;
    }
    assert(digits.take(i - start) =~= digits);
    Some(value as u16)
}

/// The address of a port on every interface, as a text.
fn any_interface_text(port: u16) -> (addr: String)
    ensures
        addr@ == any_interface(port),
{
    let numeral = text::decimal_text(port);
    let mut addr = "0.0.0.0:".to_owned();
    addr.append(numeral.as_str());
    addr
}

/// The address that a text stands for, given the reading that it has where it is no bare port. For
/// a program that takes socket addresses alone, this is the canonical form of the socket address
/// that the text spells, or why it spells none.
pub fn parse_addr(s: String, reading: Result<String, String>) -> (addr: Result<String, String>)
    ensures
        view_of(addr) == addr_of(s@, view_of(reading)),
{
    match parse_port(s.as_str()) {
        Some(port) => Ok(any_interface_text(port)),
        None => reading,
    }
}

/// A text, or the reason that there is none, as sequences of characters.
pub open spec fn view_of(r: Result<String, String>) -> Result<Seq<char>, Seq<char>> {
    match r {
        Ok(s) => Ok(s@),
        Err(s) => Err(s@),
    }
}

/// A spelling of a port: perhaps a plus sign, some leading zeros, and the numeral.
pub open spec fn spelling(plus: bool, zeros: nat, port: u16) -> Seq<char> {
    let sign = if plus {
        seq!['+']
    } else {
        Seq::empty()
    };
    sign + (Seq::new(zeros, |i: int| '0') + text::decimal(port as nat))
}

/// Every spelling of a port is read as that port, and stands for it on every interface.
pub proof fn law_spellings_are_read(
    plus: bool,
    zeros: nat,
    port: u16,
    reading: Result<Seq<char>, Seq<char>>,
)
    ensures
        port_of(spelling(plus, zeros, port)) == Some(port),
        addr_of(spelling(plus, zeros, port), reading) == Ok::<Seq<char>, Seq<char>>(
            seq!['0', '.', '0', '.', '0', '.', '0', ':'] + text::decimal(port as nat),
        ),
{
    let s = spelling(plus, zeros, port);
    let padding = Seq::new(zeros, |i: int| '0');
    let numeral = text::decimal(port as nat);
    let digits = padding + numeral;
    text::law_decimal_reads_back(port as nat);
    lemma_padding(padding, numeral);
    assert forall|i: int| 0 <= i < digits.len() implies text::is_digit(#[trigger] digits[i]) by {
        if i >= zeros {
            assert(digits[i] == numeral[i - zeros]);
        }
    }
    assert(text::is_digit(digits[0]));
    if plus {
        assert(s.skip(1) =~= digits);
    } else {
        assert(s =~= digits);
    }
    law_interface_text(port);
}

/// Only spellings of ports are read as ports; every other text is left to its reading.
pub proof fn law_only_spellings_are_ports(s: Seq<char>, reading: Result<Seq<char>, Seq<char>>)
    ensures
        port_of(s) matches Some(port) ==> exists|plus: bool, zeros: nat|
            s == #[trigger] spelling(plus, zeros, port),
        (forall|plus: bool, zeros: nat, port: u16| s != #[trigger] spelling(plus, zeros, port))
            ==> addr_of(s, reading) == reading,
{
    if let Some(port) = port_of(s) {
        let plus = s[0] == '+';
        let digits = if plus {
            s.skip(1)
        } else {
            s
        };
        let zeros = lemma_digits_are_padded(digits);
        assert(s =~= spelling(plus, zeros, port));
    }
}

/// The address of a port on every interface: four zeros, and the port.
pub proof fn law_interface_text(port: u16)
    ensures
        any_interface(port) == seq!['0', '.', '0', '.', '0', '.', '0', ':'] + text::decimal(
            port as nat,
        ),
{
    reveal_strlit("0.0.0.0:");
    assert("0.0.0.0:"@ =~= seq!['0', '.', '0', '.', '0', '.', '0', ':']);
}

/// Leading zeros change nothing.
proof fn lemma_padding(padding: Seq<char>, digits: Seq<char>)
    requires
        forall|i: int| 0 <= i < padding.len() ==> #[trigger] padding[i] == '0',
    ensures
        text::decimal_value(padding + digits) == text::decimal_value(digits),
    decreases padding.len() + digits.len(),
{
    let all = padding + digits;
    if digits.len() > 0 {
        lemma_padding(padding, digits.drop_last());
        assert(all.drop_last() =~= padding + digits.drop_last());
    } else if padding.len() > 0 {
        lemma_padding(padding.drop_last(), digits);
        assert(all.drop_last() =~= padding.drop_last() + digits);
        assert(all.last() == '0');
    } else {
        assert(all =~= digits);
    }
}

/// A string of digits is a numeral after some zeros.
proof fn lemma_digits_are_padded(digits: Seq<char>) -> (zeros: nat)
    requires
        digits.len() > 0,
        text::all_digits(digits),
    ensures
        digits == Seq::new(zeros, |i: int| '0') + text::decimal(text::decimal_value(digits)),
    decreases digits.len(),
{
    let init = digits.drop_last();
    let c = digits.last();
    assert(text::is_digit(digits[digits.len() - 1]));
    let d = text::digit_value(c);
    assert(text::digit(d) == c);
    if init.len() == 0 {
        assert(text::decimal_value(init) == 0);
        assert(digits =~= Seq::new(0, |i: int| '0') + text::decimal(d));
        0
    } else {
        assert forall|i: int| 0 <= i < init.len() implies text::is_digit(#[trigger] init[i]) by {
            assert(init[i] == digits[i]);
        }
        let zeros = lemma_digits_are_padded(init);
        let v = text::decimal_value(init);
        assert(digits =~= init.push(c));
        if v > 0 {
            assert((v * 10 + d) / 10 == v && (v * 10 + d) % 10 == d);
            assert(digits =~= Seq::new(zeros, |i: int| '0') + text::decimal(v * 10 + d));
            zeros
        } else {
            assert(text::decimal(0) =~= seq!['0']);
            assert(digits =~= Seq::new(zeros + 1, |i: int| '0') + text::decimal(d));
            zeros + 1
        }
    }
}

} // verus!

//! Identifiers of executions and markers.
use crate::text;
use crate::text::concat3;
use vstd::prelude::*;

verus! {

/// Calls `Uuid::new_v4` and `Uuid::as_u128` of the uuid crate: a random number, of which
/// nothing else is claimed.
#[verifier::external_body]
pub(crate) fn random_id() -> (r: u128) {
    uuid::Uuid::new_v4().as_u128()
}

/// The number that a text denotes as a UUID, or what is wrong with the text.
pub uninterp spec fn uuid_value(text: Seq<char>) -> Result<int, Seq<char>>;

/// Calls `Uuid::parse_str` of the uuid crate, whose result depends on the text alone.
#[verifier::external_body]
fn parse_uuid(text: &str) -> (r: Result<u128, String>)
    ensures
        match r {
            Ok(n) => uuid_value(text@) == Ok::<int, Seq<char>>(n as int),
            Err(e) => uuid_value(text@) == Err::<int, Seq<char>>(e@),
        },
{
    uuid::Uuid::parse_str(text).map(|u| u.as_u128()).map_err(|e| e.to_string())
}

/// Read the identifier of an execution.
pub fn parse_execution_id(text: &str) -> (r: Result<u128, String>)
    ensures
        match r {
            Ok(n) => uuid_value(text@) == Ok::<int, Seq<char>>(n as int),
            Err(e) => uuid_value(text@) == Err::<int, Seq<char>>(e@),
        },
{
    parse_uuid(text)
}

pub open spec fn is_lower_hex(c: char) -> bool {
    0x30 <= c as u32 <= 0x39 || 0x61 <= c as u32 <= 0x66
}

/// A number below 16 as a lower-case hexadecimal digit.
pub open spec fn hex_digit(d: int) -> char {
    if d < 10 {
        (0x30 + d) as char
    } else {
        (0x57 + d) as char
    }
}

/// The last digits of a number in hexadecimal, as many as asked for.
pub open spec fn hex_of(n: int, width: nat) -> Seq<char>
    decreases width,
{
    if width == 0 {
        Seq::empty()
    } else {
        hex_of(n / 16, (width - 1) as nat).push(hex_digit(n % 16))
    }
}

pub proof fn lemma_hex_of(n: int, width: nat)
    requires
        0 <= n,
    ensures
        hex_of(n, width).len() == width,
        forall|i: int| 0 <= i < width ==> is_lower_hex(#[trigger] hex_of(n, width)[i]),
    decreases width,
{
    if width > 0 {
        lemma_hex_of(n / 16, (width - 1) as nat);
    }
}

fn hex_text(n: u128, width: usize) -> (r: String)
    ensures
        r@ == hex_of(n as int, width as nat),
    decreases width,
{
    if width == 0 {
        return String::new();
    }
    let mut r = hex_text(n / 16, width - 1);
    let d: u8 = (n % 16) as u8;
    let c: u8 = if d < 10 {
        0x30 + d
    } else {
        0x57 + d
    };
    r.push(c as char);
    r
}

/// An identifier as 32 lower-case hexadecimal digits.
pub fn simple_text(id: u128) -> (r: String)
    ensures
        r@ == hex_of(id as int, 32),
{
    hex_text(id, 32)
}

/// A text that frames 32 hexadecimal digits by `prefix` and two underscores.
pub open spec fn is_marker(s: Seq<char>, prefix: Seq<char>) -> bool {
    &&& s.len() == prefix.len() + 34
    &&& s.take(prefix.len() as int) == prefix
    &&& forall|i: int|
        prefix.len() <= i < prefix.len() + 32 ==> is_lower_hex(#[trigger] s[i])
    &&& s.skip((prefix.len() + 32) as int) == "__"@
}

/// The marker that an identifier makes.
pub fn marker_of(prefix: &str, id: u128) -> (r: String)
    ensures
        r@ == prefix@ + hex_of(id as int, 32) + "__"@,
        is_marker(r@, prefix@),
{
    let hex = simple_text(id);
    let r = concat3(prefix, hex.as_str(), "__");
    proof {
        reveal_strlit("__");
        lemma_hex_of(id as int, 32);
        assert(r@.take(prefix@.len() as int) == prefix@);
        assert(r@.skip((prefix@.len() + 32) as int) == "__"@);
        assert forall|i: int| prefix@.len() <= i < prefix@.len() + 32 implies is_lower_hex(
            #[trigger] r@[i],
        ) by {
            assert(r@[i] == hex@[i - prefix@.len()]);
        }
    }
    r
}

/// A fresh marker with the given prefix.
pub fn make_marker_with(prefix: &str) -> (r: String)
    ensures
        is_marker(r@, prefix@),
{
    marker_of(prefix, random_id())
}

/// A marker is the prefix, a number of thirty-two hexadecimal digits and two underscores.
pub proof fn law_markers_hold_a_number(prefix: Seq<char>, n: int)
    requires
        0 <= n,
    ensures
        is_marker(prefix + hex_of(n, 32) + seq!['_', '_'], prefix),
{
    lemma_hex(n, 32);
    let hex = hex_of(n, 32);
    let s = prefix + hex + seq!['_', '_'];
    let k = prefix.len() as int;
    reveal_strlit("__");
    assert("__"@ =~= seq!['_', '_']);
    assert(s.take(k) =~= prefix);
    assert(s.skip(k + 32) =~= seq!['_', '_']);
    assert forall|i: int| k <= i < k + 32 implies is_lower_hex(#[trigger] s[i]) by {
        assert(s[i] == hex[i - k]);
    }
}

/// The number that hexadecimal digits stand for.
pub open spec fn hex_value(s: Seq<char>) -> int
    decreases s.len(),
{
    if s.len() == 0 {
        0
    } else {
        let u = s.last() as u32;
        hex_value(s.drop_last()) * 16 + if u >= 'a' as u32 {
            u - 'a' as u32 + 10
        } else {
            u - '0' as u32
        }
    }
}

/// A number is read back from its hexadecimal digits, where they are enough for it.
pub proof fn law_hexadecimal_digits_read_back(n: int, width: nat)
    requires
        0 <= n < vstd::arithmetic::power::pow(16, width),
    ensures
        hex_of(n, width).len() == width,
        hex_value(hex_of(n, width)) == n,
    decreases width,
{
    reveal_with_fuel(vstd::arithmetic::power::pow, 2);
    if width > 0 {
        let less = (width - 1) as nat;
        let p = vstd::arithmetic::power::pow(16, less);
        assert(vstd::arithmetic::power::pow(16, width) == 16 * p);
        assert(n / 16 < p);
        law_hexadecimal_digits_read_back(n / 16, less);
        let s = hex_of(n, width);
        assert(s.drop_last() =~= hex_of(n / 16, less));
    }
}

proof fn lemma_hex(n: int, width: nat)
    requires
        0 <= n,
    ensures
        hex_of(n, width).len() == width,
        forall|i: int| 0 <= i < width ==> is_lower_hex(#[trigger] hex_of(n, width)[i]),
    decreases width,
{
    if width > 0 {
        lemma_hex(n / 16, (width - 1) as nat);
        let before = hex_of(n / 16, (width - 1) as nat);
        assert forall|i: int| 0 <= i < width implies is_lower_hex(
            #[trigger] hex_of(n, width)[i],
        ) by {
            if i < width - 1 {
                assert(hex_of(n, width)[i] == before[i]);
            }
        }
    }
}

} // verus!

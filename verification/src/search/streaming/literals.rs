//! What a literal is in each encoding, and where bytes may be cut.
use vstd::prelude::*;

use super::{complete_len, needle_of, unit_bytes, units_from, units_of};
use crate::identity::ArenaOwnerId;
use crate::search::reader::lines::unit_of;
use crate::search::reader::DetectedEncoding;
use crate::search::source::SourceEncoding;

verus! {

/// The characters that units of two bytes tell: a high and a low surrogate tell one
/// together, and any other unit one by itself.
pub open spec fn read_units(units: Seq<u16>) -> Seq<int>
    decreases units.len(),
{
    if units.len() == 0 {
        Seq::empty()
    } else if units.len() >= 2 && 0xd800 <= units[0] <= 0xdbff && 0xdc00 <= units[1] <= 0xdfff {
        seq![0x1_0000 + (units[0] - 0xd800) * 0x400 + (units[1] - 0xdc00)] + read_units(
            units.skip(2),
        )
    } else {
        seq![units[0] as int] + read_units(units.skip(1))
    }
}

proof fn lemma_scalar(c: char)
    ensures
        c as u32 == c as int,
        0 <= c as int <= 0x10_ffff,
        !(0xd800 <= c as int <= 0xdfff),
{
}

/// The units of a text tell the text.
pub proof fn units_tell_the_text(text: Seq<char>, i: int)
    requires
        0 <= i <= text.len(),
    ensures
        read_units(units_from(text, i)) == text.skip(i).map_values(|c: char| c as int),
    decreases text.len() - i,
{
    let code = |c: char| c as int;
    let units = units_from(text, i);
    if i < text.len() {
        units_tell_the_text(text, i + 1);
        let c = text[i];
        let n = c as u32;
        let first = units_of(c);
        let rest = units_from(text, i + 1);
        lemma_scalar(c);
        if n < 0x1_0000 {
            assert(first[0] == n);
            assert(units[0] == n);
            assert(units.skip(1) =~= rest);
        } else {
            let d = n - 0x1_0000;
            assert(d / 0x400 < 0x400 && d == d / 0x400 * 0x400 + d % 0x400);
            assert(units[0] == first[0] && units[1] == first[1]);
            assert(units.skip(2) =~= rest);
        }
        assert(text.skip(i).map_values(code) =~= seq![n as int] + text.skip(i + 1).map_values(
            code,
        ));
    } else {
        assert(text.skip(i).map_values(code) =~= Seq::empty());
    }
}

/// Bytes are those of units, each in two bytes, the low one first or last.
pub open spec fn bytes_tell(bytes: Seq<u8>, units: Seq<u16>, low_first: bool) -> bool {
    &&& bytes.len() == 2 * units.len()
    &&& forall|k: int|
        0 <= k < units.len() ==> #[trigger] units[k] == if low_first {
            bytes[2 * k] + 256 * bytes[2 * k + 1]
        } else {
            256 * bytes[2 * k] + bytes[2 * k + 1]
        }
}

proof fn lemma_bytes(units: Seq<u16>, i: int, low_first: bool)
    requires
        0 <= i <= units.len(),
    ensures
        bytes_tell(unit_bytes(units, i, low_first), units.skip(i), low_first),
    decreases units.len() - i,
{
    if i < units.len() {
        lemma_bytes(units, i + 1, low_first);
        let bytes = unit_bytes(units, i, low_first);
        let rest = unit_bytes(units, i + 1, low_first);
        let low = (units[i] % 256) as u8;
        let high = (units[i] / 256) as u8;
        assert(units[i] == low + 256 * high);
        assert forall|k: int| 0 <= k < units.skip(i).len() implies #[trigger] units.skip(i)[k]
            == if low_first {
            bytes[2 * k] + 256 * bytes[2 * k + 1]
        } else {
            256 * bytes[2 * k] + bytes[2 * k + 1]
        } by {
            if k > 0 {
                assert(units.skip(i)[k] == units.skip(i + 1)[k - 1]);
                assert(bytes[2 * k] == rest[2 * (k - 1)]);
                assert(bytes[2 * k + 1] == rest[2 * (k - 1) + 1]);
            }
        }
    }
}

/// A literal of text is that text in each encoding: its bytes, and its units with the low
/// byte first and with the high byte first. A literal of bytes has only these bytes.
pub proof fn literals_tell_the_text(
    owner: ArenaOwnerId,
    bytes: Seq<u8>,
    text: Option<Seq<char>>,
    limit: int,
    granted: bool,
)
    ensures
        ({
            let units = match text {
                Some(text) => Some(units_from(text, 0)),
                None => None,
            };
            needle_of(owner, bytes, units, limit, granted) matches Ok(needle) ==> {
                &&& 0 < bytes.len() <= limit
                &&& granted
                &&& needle.owner == owner
                &&& needle.utf8 == bytes
                &&& needle.mode is ExactText <==> text is Some
                &&& text matches Some(text) ==> bytes_tell(needle.little, units_from(text, 0), true)
                    && bytes_tell(needle.big, units_from(text, 0), false) && read_units(
                    units_from(text, 0),
                ) == text.map_values(|c: char| c as int) && needle.little.len() <= limit
                &&& text is None ==> needle.little.len() == 0 && needle.big.len() == 0
            }
        }),
{
    if let Some(text) = text {
        let units = units_from(text, 0);
        units_tell_the_text(text, 0);
        assert(text.skip(0) =~= text);
        lemma_bytes(units, 0, true);
        lemma_bytes(units, 0, false);
        assert(units.skip(0) =~= units);
    }
}

/// Bytes of units are cut behind a unit, and not behind a high surrogate, at most three
/// bytes from their end. They are not cut if they end with a unit that is no high
/// surrogate.
pub proof fn wide_bytes_are_cut_between_characters(bytes: Seq<u8>, encoding: DetectedEncoding)
    requires
        !(encoding is Utf8),
    ensures
        ({
            let n = complete_len(bytes, SourceEncoding::Known(encoding));
            &&& 0 <= n <= bytes.len() <= n + 3
            &&& n % 2 == 0
            &&& bytes.len() % 2 == 0 && (bytes.len() > 0 ==> !(0xd800 <= unit_of(
                bytes,
                encoding,
                bytes.len() - 2,
            ) <= 0xdbff)) ==> n == bytes.len()
            &&& n + 2 <= bytes.len() ==> 0xd800 <= unit_of(bytes, encoding, n) <= 0xdbff
            &&& n + 1 >= bytes.len() && n > 0 ==> !(0xd800 <= unit_of(bytes, encoding, n - 2)
                <= 0xdbff)
        }),
{
}

} // verus!

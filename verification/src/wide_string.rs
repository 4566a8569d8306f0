//! Strings as the window system takes them: in UTF-16, ended by a zero.

use vstd::prelude::*;

verus! {

/// A string in UTF-16 code units, with its closing zero.
pub struct WideString(pub Vec<u16>);

/// The UTF-16 code units of one character: the character itself below
/// U+10000, else a high and a low surrogate that share its 20 bits.
pub open spec fn utf16_units(c: char) -> Seq<u16> {
    let code = c as u32;
    if code < 0x10000 {
        seq![code as u16]
    } else {
        seq![
            (0xD800 + (code - 0x10000) / 0x400) as u16,
            (0xDC00 + (code - 0x10000) % 0x400) as u16,
        ]
    }
}

/// The UTF-16 code units of a string.
pub open spec fn utf16(s: Seq<char>) -> Seq<u16>
    decreases s.len(),
{
    if s.len() == 0 {
        Seq::empty()
    } else {
        utf16(s.drop_last()) + utf16_units(s.last())
    }
}

/// What can be handed to the window system as a string.
pub trait ToWide {
    /// The code units of the wide string, closing zero included.
    spec fn wide(&self) -> Seq<u16>;

    fn to_wide(&self) -> (wide: WideString)
        ensures
            wide.0@ == self.wide(),
    ;
}

impl ToWide for &str {
    open spec fn wide(&self) -> Seq<u16> {
        utf16(self@).push(0)
    }

    fn to_wide(&self) -> (wide: WideString) {
        let mut result: Vec<u16> = Vec::new();
        for c in iter: self.chars()
            invariant
                iter.seq() == self@,
                result@ == utf16(self@.take(iter.index() as int)),
        {
            proof {
                let done = iter.index() as int;
                assert(self@.take(done + 1).drop_last() =~= self@.take(done));
                assert(self@.take(done + 1).last() == c);
            }
            let code = c as u32;
            if code < 0x10000 {
                result.push(code as u16);
            } else {
                result.push((0xD800 + (code - 0x10000) / 0x400) as u16);
                result.push((0xDC00 + (code - 0x10000) % 0x400) as u16);
            }
            assert(result@ =~= utf16(self@.take(iter.index() as int)) + utf16_units(c));
        }
        assert(self@.take(self@.len() as int) =~= self@);
        result.push(0);
        WideString(result)
    }
}

} // verus!

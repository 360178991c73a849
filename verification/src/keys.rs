//! Protocol key names and the bytes a terminal expects for them.
use vstd::prelude::*;

use crate::text::str_chars;
use vstd::string::StrSliceExecFns;

verus! {

broadcast use vstd::string::group_string_axioms;

/// The terminal byte sequence of a named key, for the names the protocol
/// knows: plain keys, ANSI arrow and navigation keys, `Ctrl-<letter>`
/// combinations and xterm function keys.
pub open spec fn named_key_bytes(name: Seq<char>) -> Option<Seq<u8>> {
    if name == "Enter"@ {
        Some(seq![0x0du8])
    } else if name == "Tab"@ {
        Some(seq![0x09u8])
    } else if name == "Escape"@ {
        Some(seq![0x1bu8])
    } else if name == "Backspace"@ {
        Some(seq![0x7fu8])
    } else if name == "Up"@ {
        Some(seq![0x1bu8, 0x5bu8, 0x41u8])
    } else if name == "Down"@ {
        Some(seq![0x1bu8, 0x5bu8, 0x42u8])
    } else if name == "Right"@ {
        Some(seq![0x1bu8, 0x5bu8, 0x43u8])
    } else if name == "Left"@ {
        Some(seq![0x1bu8, 0x5bu8, 0x44u8])
    } else if name == "Home"@ {
        Some(seq![0x1bu8, 0x5bu8, 0x48u8])
    } else if name == "End"@ {
        Some(seq![0x1bu8, 0x5bu8, 0x46u8])
    } else if name == "PageUp"@ {
        Some(seq![0x1bu8, 0x5bu8, 0x35u8, 0x7eu8])
    } else if name == "PageDown"@ {
        Some(seq![0x1bu8, 0x5bu8, 0x36u8, 0x7eu8])
    } else if name == "Ctrl-A"@ {
        Some(seq![0x01u8])
    } else if name == "Ctrl-B"@ {
        Some(seq![0x02u8])
    } else if name == "Ctrl-C"@ {
        Some(seq![0x03u8])
    } else if name == "Ctrl-D"@ {
        Some(seq![0x04u8])
    } else if name == "Ctrl-E"@ {
        Some(seq![0x05u8])
    } else if name == "Ctrl-F"@ {
        Some(seq![0x06u8])
    } else if name == "Ctrl-G"@ {
        Some(seq![0x07u8])
    } else if name == "Ctrl-H"@ {
        Some(seq![0x08u8])
    } else if name == "Ctrl-K"@ {
        Some(seq![0x0bu8])
    } else if name == "Ctrl-L"@ {
        Some(seq![0x0cu8])
    } else if name == "Ctrl-N"@ {
        Some(seq![0x0eu8])
    } else if name == "Ctrl-P"@ {
        Some(seq![0x10u8])
    } else if name == "Ctrl-R"@ {
        Some(seq![0x12u8])
    } else if name == "Ctrl-U"@ {
        Some(seq![0x15u8])
    } else if name == "Ctrl-W"@ {
        Some(seq![0x17u8])
    } else if name == "Ctrl-Z"@ {
        Some(seq![0x1au8])
    } else if name == "F1"@ {
        Some(seq![0x1bu8, 0x4fu8, 0x50u8])
    } else if name == "F2"@ {
        Some(seq![0x1bu8, 0x4fu8, 0x51u8])
    } else if name == "F3"@ {
        Some(seq![0x1bu8, 0x4fu8, 0x52u8])
    } else if name == "F4"@ {
        Some(seq![0x1bu8, 0x4fu8, 0x53u8])
    } else if name == "F5"@ {
        Some(seq![0x1bu8, 0x5bu8, 0x31u8, 0x35u8, 0x7eu8])
    } else if name == "F6"@ {
        Some(seq![0x1bu8, 0x5bu8, 0x31u8, 0x37u8, 0x7eu8])
    } else if name == "F7"@ {
        Some(seq![0x1bu8, 0x5bu8, 0x31u8, 0x38u8, 0x7eu8])
    } else if name == "F8"@ {
        Some(seq![0x1bu8, 0x5bu8, 0x31u8, 0x39u8, 0x7eu8])
    } else if name == "F9"@ {
        Some(seq![0x1bu8, 0x5bu8, 0x32u8, 0x30u8, 0x7eu8])
    } else if name == "F10"@ {
        Some(seq![0x1bu8, 0x5bu8, 0x32u8, 0x31u8, 0x7eu8])
    } else if name == "F11"@ {
        Some(seq![0x1bu8, 0x5bu8, 0x32u8, 0x33u8, 0x7eu8])
    } else if name == "F12"@ {
        Some(seq![0x1bu8, 0x5bu8, 0x32u8, 0x34u8, 0x7eu8])
    } else {
        None
    }
}

/// The bytes sent for a key name: its terminal sequence where the name is
/// known, and otherwise the UTF-8 bytes of the name itself.
pub open spec fn key_bytes(name: Seq<char>) -> Seq<u8> {
    match named_key_bytes(name) {
        Some(bytes) => bytes,
        None => vstd::utf8::encode_utf8(name),
    }
}

/// Whether the characters `cs` spell out `lit`.
fn name_is(cs: &Vec<char>, lit: &str) -> (r: bool)
    ensures
        r == (cs@ == lit@),
{
    let ls = str_chars(lit);
    if ls.len() != cs.len() {
        return false;
    }
    let mut i: usize = 0;
    while i < ls.len()
        invariant
            ls@.len() == cs@.len(),
            ls@ == lit@,
            i <= ls@.len(),
            forall|j: int| 0 <= j < i ==> cs@[j] == ls@[j],
        decreases ls@.len() - i,
    {
        if ls[i] != cs[i] {
            return false;
        }
        i = i + 1;
    }
    assert(cs@ =~= ls@);
    true
}

/// Maps a key name from the protocol to the bytes written to the terminal.
pub fn key_to_bytes(key_name: &str) -> (r: Vec<u8>)
    ensures
        r@ == key_bytes(key_name@),
{
    let cs = str_chars(key_name);
    let ghost name = key_name@;
    if name_is(&cs, "Enter") {
        vec![0x0d]
    } else if name_is(&cs, "Tab") {
        vec![0x09]
    } else if name_is(&cs, "Escape") {
        vec![0x1b]
    } else if name_is(&cs, "Backspace") {
        vec![0x7f]
    } else if name_is(&cs, "Up") {
        vec![0x1b, 0x5b, 0x41]
    } else if name_is(&cs, "Down") {
        vec![0x1b, 0x5b, 0x42]
    } else if name_is(&cs, "Right") {
        vec![0x1b, 0x5b, 0x43]
    } else if name_is(&cs, "Left") {
        vec![0x1b, 0x5b, 0x44]
    } else if name_is(&cs, "Home") {
        vec![0x1b, 0x5b, 0x48]
    } else if name_is(&cs, "End") {
        vec![0x1b, 0x5b, 0x46]
    } else if name_is(&cs, "PageUp") {
        vec![0x1b, 0x5b, 0x35, 0x7e]
    } else if name_is(&cs, "PageDown") {
        vec![0x1b, 0x5b, 0x36, 0x7e]
    } else if name_is(&cs, "Ctrl-A") {
        vec![0x01]
    } else if name_is(&cs, "Ctrl-B") {
        vec![0x02]
    } else if name_is(&cs, "Ctrl-C") {
        vec![0x03]
    } else if name_is(&cs, "Ctrl-D") {
        vec![0x04]
    } else if name_is(&cs, "Ctrl-E") {
        vec![0x05]
    } else if name_is(&cs, "Ctrl-F") {
        vec![0x06]
    } else if name_is(&cs, "Ctrl-G") {
        vec![0x07]
    } else if name_is(&cs, "Ctrl-H") {
        vec![0x08]
    } else if name_is(&cs, "Ctrl-K") {
        vec![0x0b]
    } else if name_is(&cs, "Ctrl-L") {
        vec![0x0c]
    } else if name_is(&cs, "Ctrl-N") {
        vec![0x0e]
    } else if name_is(&cs, "Ctrl-P") {
        vec![0x10]
    } else if name_is(&cs, "Ctrl-R") {
        vec![0x12]
    } else if name_is(&cs, "Ctrl-U") {
        vec![0x15]
    } else if name_is(&cs, "Ctrl-W") {
        vec![0x17]
    } else if name_is(&cs, "Ctrl-Z") {
        vec![0x1a]
    } else if name_is(&cs, "F1") {
        vec![0x1b, 0x4f, 0x50]
    } else if name_is(&cs, "F2") {
        vec![0x1b, 0x4f, 0x51]
    } else if name_is(&cs, "F3") {
        vec![0x1b, 0x4f, 0x52]
    } else if name_is(&cs, "F4") {
        vec![0x1b, 0x4f, 0x53]
    } else if name_is(&cs, "F5") {
        vec![0x1b, 0x5b, 0x31, 0x35, 0x7e]
    } else if name_is(&cs, "F6") {
        vec![0x1b, 0x5b, 0x31, 0x37, 0x7e]
    } else if name_is(&cs, "F7") {
        vec![0x1b, 0x5b, 0x31, 0x38, 0x7e]
    } else if name_is(&cs, "F8") {
        vec![0x1b, 0x5b, 0x31, 0x39, 0x7e]
    } else if name_is(&cs, "F9") {
        vec![0x1b, 0x5b, 0x32, 0x30, 0x7e]
    } else if name_is(&cs, "F10") {
        vec![0x1b, 0x5b, 0x32, 0x31, 0x7e]
    } else if name_is(&cs, "F11") {
        vec![0x1b, 0x5b, 0x32, 0x33, 0x7e]
    } else if name_is(&cs, "F12") {
        vec![0x1b, 0x5b, 0x32, 0x34, 0x7e]
    } else {
        key_name.as_bytes_vec()
    }
}

} // verus!

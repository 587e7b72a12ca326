//! What passes between the program and the system: wide strings, command lines, registry values.

use crate::text::{lemma_span, span, to_chars};
use vstd::prelude::*;
use vstd::string::*;
use vstd::utf8::is_scalar;

verus! {

/// `char::from_u32`: the character with the given code point, where the number is one that a
/// character can have.
pub assume_specification[ char::from_u32 ](i: u32) -> (out: Option<char>)
    ensures
        match out {
            Some(c) => c as u32 == i,
            None => !is_scalar(i),
        },
;

/// The code units of a character in UTF-16.
pub open spec fn utf16_char(c: char) -> Seq<u16> {
    let n = c as int;
    if n < 0x10000 {
        seq![n as u16]
    } else {
        seq![(0xd800 + (n - 0x10000) / 0x400) as u16, (0xdc00 + (n - 0x10000) % 0x400) as u16]
    }
}

/// The code units of a text in UTF-16.
pub open spec fn utf16(s: Seq<char>) -> Seq<u16>
    decreases s.len(),
{
    if s.len() == 0 {
        Seq::empty()
    } else {
        utf16_char(s[0]) + utf16(s.skip(1))
    }
}

/// A text as the system takes it: in UTF-16, a zero at the end.
pub open spec fn wide(s: Seq<char>) -> Seq<u16> {
    utf16(s).push(0)
}

/// The number of a character is a code point.
proof fn lemma_code_point(c: char)
    ensures
        c as int == (c as u32) as int,
        0 <= c as int <= 0x10ffff,
        !(0xd800 <= c as int <= 0xdfff),
{
}

/// Turns a string into what the system takes.
pub fn to_wide(input: &str) -> (out: Vec<u16>)
    ensures
        out@ == wide(input@),
{
    let chars = to_chars(input);
    let ghost s = input@;
    let mut out: Vec<u16> = Vec::new();
    let mut i: usize = 0;
    assert(s.skip(0) == s);
    while i < chars.len()
        invariant
            i <= chars@.len(),
            chars@ == s,
            out@ + utf16(s.skip(i as int)) == utf16(s),
        decreases chars@.len() - i,
    {
        let ghost done = out@;
        let c = chars[i];
        proof {
            lemma_code_point(c);
        }
        let n: u32 = c as u32;
        if n < 0x10000 {
            out.push(n as u16);
        } else {
            out.push((0xd800 + (n - 0x10000) / 0x400) as u16);
            out.push((0xdc00 + (n - 0x10000) % 0x400) as u16);
        }
        assert(out@ == done + utf16_char(c));
        assert(s.skip(i as int).skip(1) == s.skip(i + 1));
        assert(done + (utf16_char(c) + utf16(s.skip(i + 1))) == out@ + utf16(s.skip(i + 1)));
        i += 1;
    }
    out.push(0);
    out
}

/// Whether a code unit is the first, or the second, half of a pair.
spec fn is_half(unit: u16, second: bool) -> bool {
    if second {
        0xdc00 <= unit <= 0xdfff
    } else {
        0xd800 <= unit <= 0xdbff
    }
}

/// The character that code units begin with and the number of units that it takes,
/// where they begin with one.
spec fn first_char(units: Seq<u16>) -> Option<(char, int)> {
    if units.len() == 0 {
        None
    } else if !is_half(units[0], false) && !is_half(units[0], true) {
        Some((units[0] as char, 1))
    } else if is_half(units[0], false) && units.len() > 1 && is_half(units[1], true) {
        Some(((0x10000 + (units[0] - 0xd800) * 0x400 + (units[1] - 0xdc00)) as char, 2))
    } else {
        None
    }
}

/// Code units that begin with a character begin with the units of that character.
proof fn lemma_first_char(units: Seq<u16>)
    ensures
        first_char(units) matches Some((c, n)) ==> {
            &&& n <= units.len()
            &&& utf16_char(c) == units.take(n)
            &&& utf16_char(c).len() == n
        },
{
    if let Some((c, n)) = first_char(units) {
        if n == 1 {
            assert(c as int == units[0]);
            assert(units.take(1) =~= seq![units[0]]);
        } else {
            let high = (units[0] - 0xd800) as int;
            let low = (units[1] - 0xdc00) as int;
            assert(c as int == 0x10000 + high * 0x400 + low);
            assert((high * 0x400 + low) / 0x400 == high);
            assert((high * 0x400 + low) % 0x400 == low);
            assert(units.take(2) =~= seq![units[0], units[1]]);
        }
    }
}

/// The units of a character are read back as that character, whatever follows them.
proof fn lemma_char_read_back(c: char, rest: Seq<u16>)
    ensures
        first_char(utf16_char(c) + rest) == Some((c, utf16_char(c).len() as int)),
{
    let n = c as int;
    let units = utf16_char(c) + rest;
    if n < 0x10000 {
        assert(units[0] == n);
    } else {
        let high = (n - 0x10000) / 0x400;
        let low = (n - 0x10000) % 0x400;
        assert(0 <= high < 0x400);
        assert(units[0] == 0xd800 + high);
        assert(units[1] == 0xdc00 + low);
    }
}

/// A text whose units are the given ones begins with the character that the units begin with,
/// and the rest of it has the rest of the units.
proof fn lemma_text_of_units(s: Seq<char>, units: Seq<u16>)
    requires
        utf16(s) == units,
        units.len() > 0,
    ensures
        s.len() > 0,
        first_char(units) == Some((s[0], utf16_char(s[0]).len() as int)),
        utf16(s.skip(1)) == units.skip(utf16_char(s[0]).len() as int),
{
    let first = utf16_char(s[0]);
    lemma_char_read_back(s[0], utf16(s.skip(1)));
    assert(units.skip(first.len() as int) =~= utf16(s.skip(1)));
}

/// Turns code units into a string, where they are the units of one.
pub fn string_from_wide(units: &Vec<u16>) -> (out: Option<String>)
    ensures
        match out {
            Some(s) => utf16(s@) == units@,
            None => forall|s: Seq<char>| utf16(s) != units@,
        },
{
    let ghost u = units@;
    let mut out: String = String::new();
    let mut i: usize = 0;
    let len = units.len();
    assert(u.take(0) =~= Seq::<u16>::empty());
    assert(u.skip(0) =~= u);
    while i < len
        invariant
            i <= len,
            len == u.len(),
            units@ == u,
            utf16(out@) == u.take(i as int),
            forall|s: Seq<char>|
                #[trigger] utf16(s) == u ==> exists|t: Seq<char>| utf16(t) == u.skip(i as int),
        decreases len - i,
    {
        let ghost rest = u.skip(i as int);
        let a: u16 = units[i];
        let mut code: u32 = a as u32;
        let mut n: usize = 1;
        proof {
            lemma_first_char(rest);
            assert forall|t: Seq<char>| #[trigger] utf16(t) == rest implies first_char(rest)
                is Some by {
                lemma_text_of_units(t, rest);
            }
        }
        if 0xd800 <= a && a <= 0xdfff {
            if a > 0xdbff || i + 1 >= len {
                assert(first_char(rest) is None);
                return None;
            }
            let b: u16 = units[i + 1];
            if !(0xdc00 <= b && b <= 0xdfff) {
                assert(first_char(rest) is None);
                return None;
            }
            code = 0x10000 + (a as u32 - 0xd800) * 0x400 + (b as u32 - 0xdc00);
            n = 2;
        }
        match char::from_u32(code) {
            None => {
                return None;
            },
            Some(c) => {
                proof {
                    lemma_code_point(c);
                    assert(c as int == code);
                    assert(first_char(rest) == Some((c, n as int)));
                    lemma_utf16_push(out@, c);
                    assert(u.take(i as int) + rest.take(n as int) =~= u.take(i + n));
                    assert forall|s: Seq<char>| #[trigger] utf16(s) == u implies exists|
                        t: Seq<char>,
                    | utf16(t) == u.skip(i + n) by {
                        let t = choose|t: Seq<char>| utf16(t) == rest;
                        lemma_text_of_units(t, rest);
                        assert(rest.skip(n as int) =~= u.skip(i + n));
                        assert(utf16(t.skip(1)) == u.skip(i + n));
                    }
                }
                out.push(c);
                i += n;
            },
        }
    }
    assert(u.take(i as int) =~= u);
    Some(out)
}

/// The code units before the first zero; all of them where there is none.
pub open spec fn before_zero(units: Seq<u16>) -> Seq<u16>
    decreases units.len(),
{
    if units.len() == 0 || units[0] == 0 {
        Seq::empty()
    } else {
        seq![units[0]] + before_zero(units.skip(1))
    }
}

/// The string that the system gives: empty where it gives none, or else made of the code units up
/// to the first zero, where they are the units of a string.
pub fn string_from_pwstr(source: Option<&Vec<u16>>) -> (out: Option<String>)
    ensures
        match (source, out) {
            (None, Some(s)) => s@ == Seq::<char>::empty(),
            (None, None) => false,
            (Some(units), Some(s)) => utf16(s@) == before_zero(units@),
            (Some(units), None) => forall|s: Seq<char>| utf16(s) != before_zero(units@),
        },
{
    match source {
        None => Some(String::new()),
        Some(units) => {
            let ghost u = units@;
            let mut head: Vec<u16> = Vec::new();
            let mut i: usize = 0;
            assert(u.skip(0) == u);
            while i < units.len() && units[i] != 0
                invariant
                    i <= units@.len(),
                    units@ == u,
                    head@ + before_zero(u.skip(i as int)) == before_zero(u),
                decreases units@.len() - i,
            {
                let ghost done = head@;
                head.push(units[i]);
                assert(u.skip(i as int).skip(1) == u.skip(i + 1));
                assert(done + (seq![u[i as int]] + before_zero(u.skip(i + 1))) == head@
                    + before_zero(u.skip(i + 1)));
                i += 1;
            }
            assert(head@ == before_zero(u));
            string_from_wide(&head)
        },
    }
}

/// The units of a text with one more character.
proof fn lemma_utf16_push(s: Seq<char>, c: char)
    ensures
        utf16(s.push(c)) == utf16(s) + utf16_char(c),
    decreases s.len(),
{
    if s.len() == 0 {
        assert(s.push(c).skip(1) =~= Seq::<char>::empty());
        assert(utf16(s.push(c).skip(1)) =~= Seq::<u16>::empty());
        assert(utf16(s.push(c)) =~= utf16_char(c));
        assert(utf16(s) + utf16_char(c) =~= utf16_char(c));
    } else {
        assert(s.push(c).skip(1) =~= s.skip(1).push(c));
        lemma_utf16_push(s.skip(1), c);
        assert(utf16_char(s[0]) + (utf16(s.skip(1)) + utf16_char(c)) =~= utf16(s) + utf16_char(c));
    }
}

/// No two texts have the same code units, so reading gives back the text that was turned into them.
pub proof fn law_wide_strings_are_read_back(s: Seq<char>, t: Seq<char>)
    requires
        utf16(s) == utf16(t),
    ensures
        s == t,
    decreases s.len(),
{
    let units = utf16(s);
    if units.len() == 0 {
        if s.len() > 0 {
            assert(utf16_char(s[0]).len() > 0);
        }
        if t.len() > 0 {
            assert(utf16_char(t[0]).len() > 0);
        }
        assert(s =~= t);
    } else {
        lemma_text_of_units(s, units);
        lemma_text_of_units(t, units);
        law_wide_strings_are_read_back(s.skip(1), t.skip(1));
        assert(s =~= seq![s[0]] + s.skip(1));
        assert(t =~= seq![t[0]] + t.skip(1));
    }
}

/// A wide string has no zero before its end where the text has none, so that nothing of it is cut
/// off by one who reads up to the first zero.
pub proof fn law_wide_string_ends_at_its_first_zero(s: Seq<char>)
    requires
        !s.contains('\0'),
    ensures
        wide(s).last() == 0,
        forall|i: int| 0 <= i < wide(s).len() - 1 ==> #[trigger] wide(s)[i] != 0,
    decreases s.len(),
{
    if s.len() > 0 {
        let rest = s.skip(1);
        assert forall|i: int| 0 <= i < rest.len() implies rest[i] != '\0' by {
            assert(s[i + 1] != '\0');
        }
        law_wide_string_ends_at_its_first_zero(rest);
        assert(s[0] != '\0');
        lemma_code_point(s[0]);
        let first = utf16_char(s[0]);
        assert forall|i: int| 0 <= i < wide(s).len() - 1 implies #[trigger] wide(s)[i] != 0 by {
            if i < first.len() {
                assert(wide(s)[i] == first[i]);
            } else {
                assert(wide(s)[i] == wide(rest)[i - first.len()]);
            }
        }
    }
}

/// Units without a zero are all before the first zero of what follows them.
proof fn lemma_before_zero_behind(head: Seq<u16>, rest: Seq<u16>)
    requires
        forall|i: int| 0 <= i < head.len() ==> #[trigger] head[i] != 0,
    ensures
        before_zero(head + rest) == head + before_zero(rest),
    decreases head.len(),
{
    if head.len() == 0 {
        assert(head + rest == rest);
        assert(head + before_zero(rest) == before_zero(rest));
    } else {
        let tail = head.skip(1);
        assert forall|i: int| 0 <= i < tail.len() implies #[trigger] tail[i] != 0 by {
            assert(tail[i] == head[i + 1]);
        }
        lemma_before_zero_behind(tail, rest);
        assert((head + rest).skip(1) == tail + rest);
        assert(seq![head[0]] + (tail + before_zero(rest)) == head + before_zero(rest));
    }
}

/// Of a wide string the system gives back the text before its first NUL, so the whole text where it
/// has none, whatever stands in memory behind the string.
pub proof fn law_wide_string_is_read_to_its_first_zero(s: Seq<char>, behind: Seq<u16>)
    ensures
        before_zero(wide(s) + behind) == utf16(s.take(span(s, seq!['\0']) as int)),
        !s.contains('\0') ==> before_zero(wide(s) + behind) == utf16(s),
    decreases s.len(),
{
    let stops = seq!['\0'];
    assert(stops[0] == '\0');
    let n = span(s, stops) as int;
    lemma_span(s, stops);
    if s.len() == 0 {
        assert(s.take(n) == s);
        assert((wide(s) + behind)[0] == 0);
    } else {
        lemma_code_point(s[0]);
        let first = utf16_char(s[0]);
        let rest = s.skip(1);
        assert(wide(s) + behind == first + (wide(rest) + behind));
        if s[0] == '\0' {
            assert((wide(s) + behind)[0] == first[0]);
            assert(s.take(0) == Seq::<char>::empty());
        } else {
            assert(forall|i: int| 0 <= i < first.len() ==> #[trigger] first[i] != 0);
            lemma_before_zero_behind(first, wide(rest) + behind);
            law_wide_string_is_read_to_its_first_zero(rest, behind);
            assert(s.take(n).skip(1) == rest.take(n - 1));
            assert(s.take(n)[0] == s[0]);
        }
    }
    if !s.contains('\0') {
        if n < s.len() {
            assert(s.contains(s[n]));
        }
        assert(s.take(n) == s);
    }
}

/// A program and its arguments, from the tokens of a command line.
pub fn parse_commandline(tokens: Vec<String>) -> (out: (String, Vec<String>))
    requires
        tokens@.len() > 0,
    ensures
        out.0 == tokens@[0],
        out.1@ == tokens@.skip(1),
{
    let mut args = tokens;
    let exe = args.remove(0);
    assert(args@ == tokens@.skip(1));
    (exe, args)
}

/// The key of the registry that holds the command of a protocol.
pub open spec fn handler_key_text(protocol: Seq<char>) -> Seq<char> {
    protocol + r"\shell\open\command"@
}

/// The key of the registry that holds the command of a protocol, as the system takes it.
pub fn handler_key(protocol: &str) -> (out: Vec<u16>)
    ensures
        out@ == wide(handler_key_text(protocol@)),
{
    let mut key: String = protocol.to_owned();
    key.append(r"\shell\open\command");
    to_wide(key.as_str())
}

/// The bytes of code units, the lower one of each first.
pub open spec fn unit_bytes(units: Seq<u16>) -> Seq<u8> {
    Seq::new(
        2 * units.len(),
        |i: int|
            if i % 2 == 0 {
                (units[i / 2] % 256) as u8
            } else {
                (units[i / 2] / 256) as u8
            },
    )
}

/// The bytes under which the registry keeps a string.
pub fn wide_bytes(units: &Vec<u16>) -> (out: Vec<u8>)
    ensures
        out@ == unit_bytes(units@),
{
    let mut out: Vec<u8> = Vec::new();
    let mut i: usize = 0;
    while i < units.len()
        invariant
            i <= units@.len(),
            out@.len() == 2 * i,
            forall|j: int| 0 <= j < out@.len() ==> #[trigger] out@[j] == unit_bytes(units@)[j],
        decreases units@.len() - i,
    {
        let unit: u16 = units[i];
        out.push((unit % 256) as u8);
        out.push((unit / 256) as u8);
        i += 1;
    }
    assert(out@ =~= unit_bytes(units@));
    out
}

/// The bytes under which the registry keeps a command.
pub fn handler_value(command: &str) -> (out: Vec<u8>)
    ensures
        out@ == unit_bytes(wide(command@)),
{
    wide_bytes(&to_wide(command))
}

/// The code of the system for a buffer that is too small.
pub const MORE_DATA: u32 = 234;

/// The number of code units that a value of the registry is given room for at first.
pub const FIRST_UNITS: usize = 256;

/// The next thing to do in order to set the command of a protocol in the registry.
#[derive(Clone, Copy, PartialEq, Eq, Structural, Debug)]
pub enum SetStep {
    /// Create the key, or open the one that is there.
    Create,
    /// Set its value.
    Assign,
    /// Close it.
    Close,
    /// Nothing: the command is set.
    Done,
    /// Nothing: the system refused, with this code.
    Failed { code: i32 },
}

/// The step that follows one that ended with the given code: the next one, or none after a failure.
pub open spec fn set_step_after(step: SetStep, status: u32) -> SetStep {
    if status != 0 {
        SetStep::Failed { code: status as i32 }
    } else {
        match step {
            SetStep::Create => SetStep::Assign,
            SetStep::Assign => SetStep::Close,
            _ => SetStep::Done,
        }
    }
}

/// Decides what follows a step in setting the command of a protocol.
pub fn set_protocol_handler(step: SetStep, status: u32) -> (next: SetStep)
    requires
        step == SetStep::Create || step == SetStep::Assign || step == SetStep::Close,
    ensures
        next == set_step_after(step, status),
{
    if status != 0 {
        SetStep::Failed { code: status as i32 }
    } else {
        match step {
            SetStep::Create => SetStep::Assign,
            SetStep::Assign => SetStep::Close,
            _ => SetStep::Done,
        }
    }
}

/// The next thing to do in order to get the command of a protocol from the registry.
#[derive(Debug)]
pub enum GetStep {
    /// Open the key.
    Open,
    /// Read its value into a buffer of this many code units.
    Read { units: usize, retried: bool },
    /// Close the key; these are the code units of the command.
    Close { command: Vec<u16> },
    /// Nothing: these are the code units of the command.
    Done { command: Vec<u16> },
    /// Nothing: the system refused, with this code.
    Failed { code: i32 },
}

/// What a step says.
pub enum GetModel {
    Open,
    Read { units: int, retried: bool },
    Close { command: Seq<u16> },
    Done { command: Seq<u16> },
    Failed { code: i32 },
}

impl View for GetStep {
    type V = GetModel;

    open spec fn view(&self) -> GetModel {
        match *self {
            GetStep::Open => GetModel::Open,
            GetStep::Read { units, retried } => GetModel::Read { units: units as int, retried },
            GetStep::Close { command } => GetModel::Close { command: command@ },
            GetStep::Done { command } => GetModel::Done { command: command@ },
            GetStep::Failed { code } => GetModel::Failed { code },
        }
    }
}

/// The number of code units that hold a value of the given size in bytes.
pub open spec fn units_for(bytes: int) -> int {
    (bytes + 1) / 2
}

/// The step that follows one that ended with the given code. A reading also gave the size of the
/// value in bytes and filled the buffer: the command is all of the value but the zero at its end.
/// Only the first reading is followed by another when its buffer was too small.
pub open spec fn get_step_after(
    step: GetModel,
    status: u32,
    bytes: u32,
    buffer: Seq<u16>,
) -> GetModel {
    if step is Read && status == MORE_DATA && !step->retried {
        GetModel::Read { units: units_for(bytes as int), retried: true }
    } else if status != 0 {
        GetModel::Failed { code: status as i32 }
    } else {
        match step {
            GetModel::Open => GetModel::Read { units: FIRST_UNITS as int, retried: false },
            GetModel::Read { units, retried } => GetModel::Close {
                command: buffer.take(bytes as int / 2 - 1),
            },
            GetModel::Close { command } => GetModel::Done { command },
            _ => step,
        }
    }
}

/// Decides what follows a step in getting the command of a protocol.
pub fn get_protocol_handler(step: GetStep, status: u32, bytes: u32, buffer: Vec<u16>) -> (next:
    GetStep)
    requires
        step is Read && status == 0 ==> 2 <= bytes && bytes <= 2 * buffer@.len(),
        step is Open || step is Read || step is Close,
    ensures
        next@ == get_step_after(step@, status, bytes, buffer@),
        step is Open && status == 0 ==> next == (GetStep::Read { units: 256, retried: false }),
        step matches GetStep::Close { command } ==> status == 0 ==> next == (GetStep::Done {
            command,
        }),
        step is Read && status == 0 ==> next is Close && next->Close_command@ == buffer@.take(
            bytes as int / 2 - 1,
        ),
        status != 0 && !(step matches GetStep::Read { units, retried } && status == 234 && !retried)
            ==> next == (GetStep::Failed { code: status as i32 }),
{
    match step {
        GetStep::Open => if status != 0 {
            GetStep::Failed { code: status as i32 }
        } else {
            GetStep::Read { units: FIRST_UNITS, retried: false }
        },
        GetStep::Read { units: _, retried } => if status == MORE_DATA && !retried {
            GetStep::Read { units: (bytes / 2 + bytes % 2) as usize, retried: true }
        } else if status != 0 {
            GetStep::Failed { code: status as i32 }
        } else {
            let mut command: Vec<u16> = buffer;
            command.truncate((bytes / 2 - 1) as usize);
            assert(command@ =~= buffer@.take(bytes as int / 2 - 1));
            GetStep::Close { command }
        },
        GetStep::Close { command } => if status != 0 {
            GetStep::Failed { code: status as i32 }
        } else {
            GetStep::Done { command }
        },
        other => other,
    }
}

/// A command that was set is got back: a reading of the bytes that were kept for it gives its code
/// units, whatever the buffer holds behind them.
pub proof fn law_command_that_was_set_is_got(
    command: Seq<char>,
    step: GetModel,
    bytes: u32,
    buffer: Seq<u16>,
)
    requires
        step is Read,
        bytes == unit_bytes(wide(command)).len(),
        wide(command).len() <= buffer.len(),
        buffer.take(wide(command).len() as int) == wide(command),
    ensures
        get_step_after(step, 0, bytes, buffer) == (GetModel::Close { command: utf16(command) }),
{
    let n = utf16(command).len() as int;
    assert(bytes as int / 2 - 1 == n);
    assert(buffer.take(n) =~= buffer.take(n + 1).take(n));
    assert(wide(command).take(n) =~= utf16(command));
}

/// A buffer that was too small is followed by one that holds the whole value, and by no third.
pub proof fn law_second_buffer_is_large_enough(
    step: GetModel,
    bytes: u32,
    buffer: Seq<u16>,
    more: u32,
)
    requires
        step is Read,
    ensures
        !step->retried ==> {
            let next = get_step_after(step, MORE_DATA, bytes, buffer);
            &&& next is Read
            &&& 2 * next->units >= bytes
            &&& get_step_after(next, MORE_DATA, more, buffer) is Failed
        },
{
}

/// The text of code units goes character by character: one unit for a character below 0x10000, its
/// number; two halves for any other, from which its number can be put together again.
pub proof fn law_units_of_a_character(c: char)
    ensures
        (c as u32) < 0x10000 ==> utf16(seq![c]).len() == 1 && utf16(seq![c])[0] == c as u32,
        (c as u32) >= 0x10000 ==> {
            let units = utf16(seq![c]);
            &&& units.len() == 2
            &&& 0xd800 <= units[0] <= 0xdbff
            &&& 0xdc00 <= units[1] <= 0xdfff
            &&& c as u32 == 0x10000 + (units[0] - 0xd800) * 0x400 + (units[1] - 0xdc00)
        },
{
    lemma_code_point(c);
    assert(seq![c].skip(1) =~= Seq::<char>::empty());
    assert(utf16(seq![c]) == utf16_char(c) + utf16(seq![c].skip(1)));
    assert(utf16(seq![c]) =~= utf16_char(c));
}

/// The units of two texts one behind the other are those of the first and then those of the second.
pub proof fn law_units_go_by_characters(a: Seq<char>, b: Seq<char>)
    ensures
        utf16(a + b) == utf16(a) + utf16(b),
        utf16(Seq::<char>::empty()) == Seq::<u16>::empty(),
    decreases a.len(),
{
    if a.len() == 0 {
        assert(a + b == b);
        assert(utf16(a) + utf16(b) == utf16(b));
    } else {
        assert((a + b)[0] == a[0]);
        assert((a + b).skip(1) == a.skip(1) + b);
        law_units_go_by_characters(a.skip(1), b);
        assert(utf16_char(a[0]) + (utf16(a.skip(1)) + utf16(b)) == utf16(a) + utf16(b));
    }
}

/// A wide string is the units of its text and one zero, even where the text holds zeros.
pub proof fn law_wide_string_has_one_more_unit(s: Seq<char>)
    ensures
        wide(s).len() == utf16(s).len() + 1,
        wide(s).drop_last() == utf16(s),
        wide(s).last() == 0,
{
    assert(wide(s).drop_last() =~= utf16(s));
}

/// Units before a zero are all there is before the first zero, whatever follows; without a zero all
/// units are.
pub proof fn law_units_before_the_first_zero(head: Seq<u16>, rest: Seq<u16>)
    requires
        !head.contains(0),
    ensures
        before_zero(head + seq![0u16] + rest) == head,
        before_zero(head) == head,
{
    assert forall|i: int| 0 <= i < head.len() implies #[trigger] head[i] != 0 by {}
    let tail = seq![0u16] + rest;
    assert(head + seq![0u16] + rest == head + tail);
    lemma_before_zero_behind(head, tail);
    assert(tail[0] == 0);
    assert(head + Seq::<u16>::empty() == head);
    lemma_before_zero_behind(head, Seq::empty());
}

/// Each unit is kept as two bytes, the lower one first, from which it can be put together again.
pub proof fn law_two_bytes_for_each_unit(units: Seq<u16>, i: int)
    requires
        0 <= i < units.len(),
    ensures
        unit_bytes(units).len() == 2 * units.len(),
        unit_bytes(units)[2 * i] + 256 * unit_bytes(units)[2 * i + 1] == units[i],
{
    assert((2 * i) % 2 == 0 && (2 * i) / 2 == i);
    assert((2 * i + 1) % 2 == 1 && (2 * i + 1) / 2 == i);
}

/// The key of a protocol is its name, whole, and then a path that all protocols share.
pub proof fn law_key_begins_with_the_protocol(protocol: Seq<char>)
    ensures
        handler_key_text(protocol).take(protocol.len() as int) == protocol,
        handler_key_text(protocol).skip(protocol.len() as int) == "\\shell\\open\\command"@,
{
    reveal_strlit(r"\shell\open\command");
    reveal_strlit("\\shell\\open\\command");
    assert(r"\shell\open\command"@ =~= "\\shell\\open\\command"@);
    assert(handler_key_text(protocol).take(protocol.len() as int) =~= protocol);
    assert(handler_key_text(protocol).skip(protocol.len() as int)
        =~= "\\shell\\open\\command"@);
}

/// The command is set by creating the key, setting its value and closing it, in this order; any
/// code but zero ends it at once, whatever the step, with that code.
pub proof fn law_setting_stops_at_the_first_failure(step: SetStep, status: u32)
    ensures
        set_step_after(SetStep::Create, 0) == SetStep::Assign,
        set_step_after(SetStep::Assign, 0) == SetStep::Close,
        set_step_after(SetStep::Close, 0) == SetStep::Done,
        status != 0 ==> set_step_after(step, status) == (SetStep::Failed { code: status as i32 }),
{
}

/// The command is got by opening the key, reading its value, first into 256 units, and closing it;
/// any code but zero ends it at once with that code, but for a first reading whose buffer was too
/// small.
pub proof fn law_getting_stops_at_the_first_failure(
    units: int,
    retried: bool,
    command: Seq<u16>,
    status: u32,
    bytes: u32,
    buffer: Seq<u16>,
)
    ensures
        get_step_after(GetModel::Open, 0, bytes, buffer) == (GetModel::Read {
            units: 256,
            retried: false,
        }),
        get_step_after(GetModel::Close { command }, 0, bytes, buffer) == (GetModel::Done {
            command,
        }),
        status != 0 ==> {
            let failed = GetModel::Failed { code: status as i32 };
            &&& get_step_after(GetModel::Open, status, bytes, buffer) == failed
            &&& get_step_after(GetModel::Close { command }, status, bytes, buffer) == failed
            &&& retried || status != 234 ==> get_step_after(
                GetModel::Read { units, retried },
                status,
                bytes,
                buffer,
            ) == failed
        },
{
}

/// A first reading whose buffer was too small is done again with room for exactly the size that the
/// system gave, an odd byte counting as a unit.
pub proof fn law_second_buffer_has_the_given_size(
    units: int,
    bytes: u32,
    buffer: Seq<u16>,
)
    ensures
        get_step_after(GetModel::Read { units, retried: false }, 234, bytes, buffer) matches
            GetModel::Read { units: room, retried } && retried && bytes <= 2 * room <= bytes + 1,
{
}

/// A reading that succeeded gives the units that the system filled, but for the last one, which is
/// the zero at the end; what the buffer holds behind them does not matter.
pub proof fn law_reading_gives_all_but_the_last_unit(
    units: int,
    retried: bool,
    value: Seq<u16>,
    end: u16,
    behind: Seq<u16>,
    bytes: u32,
)
    requires
        bytes == 2 * (value.len() + 1),
    ensures
        get_step_after(
            GetModel::Read { units, retried },
            0,
            bytes,
            value + seq![end] + behind,
        ) == (GetModel::Close { command: value }),
{
    assert(bytes as int / 2 - 1 == value.len());
    assert((value + seq![end] + behind).take(value.len() as int) =~= value);
}

} // verus!

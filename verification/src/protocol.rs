use vstd::prelude::*;

verus! {

#[derive(Clone, Copy, Debug, PartialEq, Eq, Structural)]
pub enum LedCommand {
    On,
    Off,
    Toggle,
}

#[derive(Clone, Copy, Debug, PartialEq, Eq)]
pub enum ParsedCommand<'a> {
    Ping,
    Echo(&'a str),
    Led(LedCommand),
    Pwm(u8),
    Stat,
}

#[derive(Clone, Copy, Debug, PartialEq, Eq, Structural)]
pub enum ParseError {
    Empty,
    Unknown,
    InvalidLed,
    InvalidPwm,
}

pub const MAX_LINE_LEN: usize = 64;

/// A completed line: the first `len` bytes of `bytes`.
#[derive(Clone, Copy, Debug, PartialEq, Eq)]
pub struct CompleteLine<const N: usize> {
    len: usize,
    bytes: [u8; N],
}

impl<const N: usize> CompleteLine<N> {
    pub closed spec fn spec_len(&self) -> usize {
        self.len
    }

    pub closed spec fn spec_bytes(&self) -> Seq<u8> {
        self.bytes@
    }

    pub fn new(bytes: [u8; N], len: usize) -> (l: Self)
        ensures
            l.spec_len() == len,
            l.spec_bytes() == bytes@,
    {
        Self { len, bytes }
    }

    /// The bytes of the line.
    pub fn as_bytes(&self) -> (s: &[u8])
        requires
            self.spec_len() <= N,
        ensures
            s@ == self.spec_bytes().take(self.spec_len() as int),
            s@.len() == self.spec_len(),
    {
        proof {
            vstd::array::array_len_matches_n(&self.bytes);
        }
        let all = self.bytes.as_slice();
        vstd::slice::slice_subrange(all, 0, self.len)
    }
}

#[derive(Clone, Copy, Debug, PartialEq, Eq)]
pub enum LineAssemblerEvent<const N: usize> {
    NoEvent,
    Line(CompleteLine<N>),
    Dropped,
}

/// Splits a byte stream into lines ended by `\n`; `\r` is ignored.  A line
/// longer than `N` bytes is dropped whole, up to its `\n`.
pub struct LineAssembler<const N: usize> {
    bytes: [u8; N],
    len: usize,
    dropping: bool,
}

/// What the assembler holds: the buffered bytes, how many are in use, and
/// whether the rest of an overlong line is being skipped.
pub struct AssemblerModel {
    pub bytes: Seq<u8>,
    pub len: nat,
    pub dropping: bool,
}

/// The kind of event a byte produces, and for a line, its bytes.
pub enum EventModel {
    NoEvent,
    Line(Seq<u8>),
    Dropped,
}

/// The effect of one byte on an assembler of capacity `n`.
pub open spec fn spec_push_byte(a: AssemblerModel, n: nat, byte: u8) -> (AssemblerModel, EventModel) {
    if byte == 13u8 {
        (a, EventModel::NoEvent)
    } else if byte == 10u8 {
        if a.dropping {
            (AssemblerModel { dropping: false, len: 0, ..a }, EventModel::NoEvent)
        } else if a.len == 0 {
            (a, EventModel::NoEvent)
        } else {
            (AssemblerModel { len: 0, ..a }, EventModel::Line(a.bytes.take(a.len as int)))
        }
    } else if a.dropping {
        (a, EventModel::NoEvent)
    } else if a.len < n {
        (
            AssemblerModel { bytes: a.bytes.update(a.len as int, byte), len: a.len + 1, ..a },
            EventModel::NoEvent,
        )
    } else {
        (AssemblerModel { len: 0, dropping: true, ..a }, EventModel::Dropped)
    }
}

impl<const N: usize> LineAssemblerEvent<N> {
    /// The event in terms of its kind and line bytes.
    pub open spec fn model(self) -> EventModel {
        match self {
            LineAssemblerEvent::NoEvent => EventModel::NoEvent,
            LineAssemblerEvent::Line(l) => EventModel::Line(l.spec_bytes().take(l.spec_len() as int)),
            LineAssemblerEvent::Dropped => EventModel::Dropped,
        }
    }
}

impl<const N: usize> LineAssembler<N> {
    pub closed spec fn model(&self) -> AssemblerModel {
        AssemblerModel { bytes: self.bytes@, len: self.len as nat, dropping: self.dropping }
    }

    /// Buffer length matches the capacity and the fill count stays within it.
    pub closed spec fn wf(&self) -> bool {
        &&& self.bytes@.len() == N
        &&& self.len <= N
    }

    pub fn new() -> (a: Self)
        ensures
            a.wf(),
            a.model().len == 0,
            !a.model().dropping,
            a.model().bytes == Seq::new(N as nat, |i: int| 0u8),
    {
        let bytes: [u8; N] = vstd::array::array_fill_for_copy_types(0u8);
        proof {
            vstd::array::array_len_matches_n(&bytes);
            assert(bytes@ =~= Seq::new(N as nat, |i: int| 0u8));
        }
        Self { bytes, len: 0, dropping: false }
    }

    /// Throw away the line being collected (and stop skipping an overlong
    /// one): the next byte starts a new line.
    pub fn reset(&mut self)
        requires
            old(self).wf(),
        ensures
            final(self).wf(),
            final(self).model() == (AssemblerModel { len: 0, dropping: false, ..old(self).model() }),
    {
        self.len = 0;
        self.dropping = false;
    }

    /// Feed one byte.  A line completes on `\n` when bytes were buffered; an
    /// overflowing line is reported once as `Dropped`.
    pub fn push_byte(&mut self, byte: u8) -> (e: LineAssemblerEvent<N>)
        requires
            old(self).wf(),
        ensures
            final(self).wf(),
            final(self).model() == spec_push_byte(old(self).model(), N as nat, byte).0,
            e.model() == spec_push_byte(old(self).model(), N as nat, byte).1,
            e matches LineAssemblerEvent::Line(l) ==> l.spec_len() <= N,
    {
        proof {
            vstd::array::array_len_matches_n(&self.bytes);
        }
        if byte == 13u8 {
            LineAssemblerEvent::NoEvent
        } else if byte == 10u8 {
            if self.dropping {
                self.dropping = false;
                self.len = 0;
                return LineAssemblerEvent::NoEvent;
            }
            if self.len == 0 {
                return LineAssemblerEvent::NoEvent;
            }
            let line = CompleteLine::new(self.bytes, self.len);
            self.len = 0;
            LineAssemblerEvent::Line(line)
        } else {
            if self.dropping {
                return LineAssemblerEvent::NoEvent;
            }
            if self.len < N {
                self.bytes[self.len] = byte;
                self.len = self.len + 1;
                LineAssemblerEvent::NoEvent
            } else {
                self.len = 0;
                self.dropping = true;
                LineAssemblerEvent::Dropped
            }
        }
    }
}

} // verus!

verus! {

/// Unicode `White_Space`, the set `char::is_whitespace` tests for.
pub open spec fn spec_is_whitespace(c: char) -> bool {
    let u = c as u32;
    (0x09 <= u && u <= 0x0D) || u == 0x20 || u == 0x85 || u == 0xA0 || u == 0x1680 || (0x2000 <= u
        && u <= 0x200A) || u == 0x2028 || u == 0x2029 || u == 0x202F || u == 0x205F || u == 0x3000
}

pub fn is_whitespace(c: char) -> (r: bool)
    ensures
        r == spec_is_whitespace(c),
{
    let u = c as u32;
    (0x09 <= u && u <= 0x0D) || u == 0x20 || u == 0x85 || u == 0xA0 || u == 0x1680 || (0x2000 <= u
        && u <= 0x200A) || u == 0x2028 || u == 0x2029 || u == 0x202F || u == 0x205F || u == 0x3000
}

/// First index in `[i, j)` that holds no whitespace, or `j`.
pub open spec fn skip_ws(s: Seq<char>, i: int, j: int) -> int
    decreases j - i,
{
    if i >= j || !spec_is_whitespace(s[i]) {
        i
    } else {
        skip_ws(s, i + 1, j)
    }
}

/// End of `[i, j)` once trailing whitespace is cut off.
pub open spec fn trim_end(s: Seq<char>, i: int, j: int) -> int
    decreases j - i,
{
    if j <= i || !spec_is_whitespace(s[j - 1]) {
        j
    } else {
        trim_end(s, i, j - 1)
    }
}

/// First index in `[i, j)` that holds whitespace, or `j`.
pub open spec fn find_ws(s: Seq<char>, i: int, j: int) -> int
    decreases j - i,
{
    if i >= j || spec_is_whitespace(s[i]) {
        i
    } else {
        find_ws(s, i + 1, j)
    }
}

/// ASCII lower case of a code point; other code points are unchanged.
pub open spec fn ascii_lower(u: u32) -> u32 {
    if 0x41 <= u && u <= 0x5A {
        (u + 32) as u32
    } else {
        u
    }
}

/// `s[i..j]` equals `lit`, ignoring ASCII case.
pub open spec fn eq_ignore_ascii_case(s: Seq<char>, i: int, j: int, lit: Seq<char>) -> bool {
    &&& j - i == lit.len()
    &&& forall|k: int| 0 <= k < lit.len() ==> ascii_lower(s[i + k] as u32) == ascii_lower(lit[k] as u32)
}

/// Value of a string of ASCII decimal digits.
pub open spec fn digits_value(d: Seq<char>) -> int
    decreases d.len(),
{
    if d.len() == 0 {
        0
    } else {
        digits_value(d.drop_last()) * 10 + (d.last() as u32 - 0x30)
    }
}

pub open spec fn is_ascii_digit(c: char) -> bool {
    0x30 <= c as u32 && c as u32 <= 0x39
}

/// All characters are ASCII decimal digits.
pub open spec fn all_digits(d: Seq<char>) -> bool {
    forall|k: int| 0 <= k < d.len() ==> is_ascii_digit(#[trigger] d[k])
}

/// `s` without one leading `+`.
pub open spec fn strip_plus(s: Seq<char>) -> Seq<char> {
    if s.len() > 0 && s[0] == '+' {
        s.drop_first()
    } else {
        s
    }
}

/// A non-empty run of digits whose value fits in a byte.
pub open spec fn spec_parse_digits(d: Seq<char>) -> Option<u8> {
    if d.len() > 0 && all_digits(d) && digits_value(d) <= 255 {
        Some(digits_value(d) as u8)
    } else {
        None
    }
}

/// `u8::from_str`: an optional `+`, then at least one ASCII digit, with a
/// value that fits in a byte.
pub open spec fn spec_parse_u8(s: Seq<char>) -> Option<u8> {
    spec_parse_digits(strip_plus(s))
}

/// A command with its argument as characters.
pub enum CommandModel {
    Ping,
    Echo(Seq<char>),
    Led(LedCommand),
    Pwm(u8),
    Stat,
}

/// Parse one protocol line: the line is trimmed, its first word names the
/// command (ASCII case-insensitive), and the rest, trimmed, is the argument.
pub open spec fn spec_parse_command(s: Seq<char>) -> Result<CommandModel, ParseError> {
    let n = s.len() as int;
    let a = skip_ws(s, 0, n);
    let b = trim_end(s, a, n);
    if a >= b {
        Err(ParseError::Empty)
    } else {
        let k = find_ws(s, a, b);
        let arg_start = if k < b {
            skip_ws(s, k + 1, b)
        } else {
            b
        };
        let arg_end = trim_end(s, arg_start, b);
        let arg = s.subrange(arg_start, arg_end);
        if eq_ignore_ascii_case(s, a, k, "PING"@) {
            Ok(CommandModel::Ping)
        } else if eq_ignore_ascii_case(s, a, k, "ECHO"@) {
            Ok(CommandModel::Echo(arg))
        } else if eq_ignore_ascii_case(s, a, k, "LED"@) {
            if eq_ignore_ascii_case(s, arg_start, arg_end, "ON"@) {
                Ok(CommandModel::Led(LedCommand::On))
            } else if eq_ignore_ascii_case(s, arg_start, arg_end, "OFF"@) {
                Ok(CommandModel::Led(LedCommand::Off))
            } else if eq_ignore_ascii_case(s, arg_start, arg_end, "TOGGLE"@) {
                Ok(CommandModel::Led(LedCommand::Toggle))
            } else {
                Err(ParseError::InvalidLed)
            }
        } else if eq_ignore_ascii_case(s, a, k, "PWM"@) {
            match spec_parse_u8(arg) {
                Some(p) => if p > 100 {
                    Err(ParseError::InvalidPwm)
                } else {
                    Ok(CommandModel::Pwm(p))
                },
                None => Err(ParseError::InvalidPwm),
            }
        } else if eq_ignore_ascii_case(s, a, k, "STAT"@) {
            Ok(CommandModel::Stat)
        } else {
            Err(ParseError::Unknown)
        }
    }
}

/// The parse result with its argument as characters.
pub open spec fn result_model(r: Result<ParsedCommand, ParseError>) -> Result<CommandModel, ParseError> {
    match r {
        Ok(ParsedCommand::Ping) => Ok(CommandModel::Ping),
        Ok(ParsedCommand::Echo(a)) => Ok(CommandModel::Echo(a@)),
        Ok(ParsedCommand::Led(c)) => Ok(CommandModel::Led(c)),
        Ok(ParsedCommand::Pwm(p)) => Ok(CommandModel::Pwm(p)),
        Ok(ParsedCommand::Stat) => Ok(CommandModel::Stat),
        Err(e) => Err(e),
    }
}

fn skip_ws_exec(text: &str, i: usize, j: usize) -> (r: usize)
    requires
        i <= j <= text@.len(),
    ensures
        r as int == skip_ws(text@, i as int, j as int),
        i <= r <= j,
    decreases j - i,
{
    if i >= j || !is_whitespace(text.get_char(i)) {
        i
    } else {
        skip_ws_exec(text, i + 1, j)
    }
}

fn trim_end_exec(text: &str, i: usize, j: usize) -> (r: usize)
    requires
        i <= j <= text@.len(),
    ensures
        r as int == trim_end(text@, i as int, j as int),
        i <= r <= j,
    decreases j - i,
{
    if j <= i || !is_whitespace(text.get_char(j - 1)) {
        j
    } else {
        trim_end_exec(text, i, j - 1)
    }
}

fn find_ws_exec(text: &str, i: usize, j: usize) -> (r: usize)
    requires
        i <= j <= text@.len(),
    ensures
        r as int == find_ws(text@, i as int, j as int),
        i <= r <= j,
    decreases j - i,
{
    if i >= j || is_whitespace(text.get_char(i)) {
        i
    } else {
        find_ws_exec(text, i + 1, j)
    }
}

fn ascii_lower_exec(u: u32) -> (r: u32)
    ensures
        r == ascii_lower(u),
{
    if 0x41 <= u && u <= 0x5A {
        u + 32
    } else {
        u
    }
}

/// `text[i..j]` equals `lit`, ignoring ASCII case.
fn eq_ignore_ascii_case_exec(text: &str, i: usize, j: usize, lit: &str) -> (r: bool)
    requires
        i <= j <= text@.len(),
    ensures
        r == eq_ignore_ascii_case(text@, i as int, j as int, lit@),
{
    let n = lit.unicode_len();
    if j - i != n {
        return false;
    }
    let mut k: usize = 0;
    while k < n
        invariant
            n == lit@.len(),
            j - i == n,
            i <= j <= text@.len(),
            0 <= k <= n,
            forall|m: int| 0 <= m < k ==> ascii_lower(text@[i + m] as u32) == ascii_lower(lit@[m] as u32),
        decreases n - k,
    {
        let a = text.get_char(i + k) as u32;
        let b = lit.get_char(k) as u32;
        if ascii_lower_exec(a) != ascii_lower_exec(b) {
            return false;
        }
        k = k + 1;
    }
    true
}

/// `u8::from_str` on `text[i..j]`.
fn parse_u8_range(text: &str, i: usize, j: usize) -> (r: Option<u8>)
    requires
        i <= j <= text@.len(),
    ensures
        r == spec_parse_u8(text@.subrange(i as int, j as int)),
{
    let ghost s = text@.subrange(i as int, j as int);
    let mut start = i;
    if i < j && text.get_char(i) == '+' {
        start = i + 1;
    }
    let ghost d = text@.subrange(start as int, j as int);
    proof {
        if i < j {
            assert(s[0] == text@[i as int]);
        }
        if i < j && s[0] == '+' {
            assert(d =~= s.drop_first());
        } else {
            assert(d =~= s);
        }
        assert(d == strip_plus(s));
    }
    if start >= j {
        proof {
            assert(start == j);
            assert(d.len() == 0);
        }
        return None;
    }
    let mut acc: u32 = 0;
    let mut k: usize = start;
    while k < j
        invariant
            start <= k <= j <= text@.len(),
            i <= start,
            d == text@.subrange(start as int, j as int),
            s == text@.subrange(i as int, j as int),
            d == strip_plus(s),
            forall|m: int| start <= m < k ==> is_ascii_digit(#[trigger] text@[m]),
            acc as int == if digits_value(text@.subrange(start as int, k as int)) > 256 {
                256
            } else {
                digits_value(text@.subrange(start as int, k as int))
            },
        decreases j - k,
    {
        let c = text.get_char(k) as u32;
        if c < 0x30 || c > 0x39 {
            proof {
                assert(d[k - start] == text@[k as int]);
                assert(!is_ascii_digit(d[k - start]));
                assert(!all_digits(d));
            }
            return None;
        }
        let ghost pre = text@.subrange(start as int, k as int);
        let ghost next = text@.subrange(start as int, k + 1);
        proof {
            assert(next.drop_last() =~= pre);
            assert(next.last() == text@[k as int]);
            assert(digits_value(next) == digits_value(pre) * 10 + (c - 0x30));
            assert(digits_value(pre) >= 0) by {
                lemma_digits_value_nonneg(pre);
            }
        }
        let v = acc * 10 + (c - 0x30);
        acc = if v > 256 {
            256
        } else {
            v
        };
        k = k + 1;
    }
    proof {
        assert(text@.subrange(start as int, k as int) =~= d);
        assert forall|m: int| 0 <= m < d.len() implies is_ascii_digit(#[trigger] d[m]) by {
            assert(d[m] == text@[start + m]);
        }
    }
    if acc > 255 {
        None
    } else {
        Some(acc as u8)
    }
}

proof fn lemma_digits_value_nonneg(d: Seq<char>)
    ensures
        digits_value(d) >= 0 || exists|k: int| 0 <= k < d.len() && !is_ascii_digit(d[k]),
    decreases d.len(),
{
    if d.len() > 0 {
        lemma_digits_value_nonneg(d.drop_last());
        if exists|k: int| 0 <= k < d.drop_last().len() && !is_ascii_digit(d.drop_last()[k]) {
            let k = choose|k: int| 0 <= k < d.drop_last().len() && !is_ascii_digit(d.drop_last()[k]);
            assert(!is_ascii_digit(d[k]));
        }
    }
}

/// Parse one protocol line (`PING`, `ECHO <text>`, `LED ON|OFF|TOGGLE`,
/// `PWM <0-100>`, `STAT`).
pub fn parse_command<'a>(text: &'a str) -> (r: Result<ParsedCommand<'a>, ParseError>)
    ensures
        result_model(r) == spec_parse_command(text@),
{
    let n = text.unicode_len();
    let a = skip_ws_exec(text, 0, n);
    let b = trim_end_exec(text, a, n);
    if a >= b {
        return Err(ParseError::Empty);
    }
    let k = find_ws_exec(text, a, b);
    let arg_start = if k < b {
        skip_ws_exec(text, k + 1, b)
    } else {
        b
    };
    let arg_end = trim_end_exec(text, arg_start, b);
    if eq_ignore_ascii_case_exec(text, a, k, "PING") {
        return Ok(ParsedCommand::Ping);
    }
    if eq_ignore_ascii_case_exec(text, a, k, "ECHO") {
        let arg = text.substring_char(arg_start, arg_end);
        return Ok(ParsedCommand::Echo(arg));
    }
    if eq_ignore_ascii_case_exec(text, a, k, "LED") {
        if eq_ignore_ascii_case_exec(text, arg_start, arg_end, "ON") {
            return Ok(ParsedCommand::Led(LedCommand::On));
        }
        if eq_ignore_ascii_case_exec(text, arg_start, arg_end, "OFF") {
            return Ok(ParsedCommand::Led(LedCommand::Off));
        }
        if eq_ignore_ascii_case_exec(text, arg_start, arg_end, "TOGGLE") {
            return Ok(ParsedCommand::Led(LedCommand::Toggle));
        }
        return Err(ParseError::InvalidLed);
    }
    if eq_ignore_ascii_case_exec(text, a, k, "PWM") {
        let percent = match parse_u8_range(text, arg_start, arg_end) {
            Some(p) => p,
            None => {
                return Err(ParseError::InvalidPwm);
            },
        };
        if percent > 100 {
            return Err(ParseError::InvalidPwm);
        }
        return Ok(ParsedCommand::Pwm(percent));
    }
    if eq_ignore_ascii_case_exec(text, a, k, "STAT") {
        return Ok(ParsedCommand::Stat);
    }
    Err(ParseError::Unknown)
}

} // verus!

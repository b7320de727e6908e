//! The data-level interface toward external observers: the record type
//! that is forwarded verbatim, and its JSON wire form, one object per
//! record with the shape `{"level":"...","message":"..."}`.

use vstd::prelude::*;
use vstd::string::StrSliceExecFns;
use vstd::string::StringExecFns;
use vstd::utf8::encode_utf8;

verus! {

/// A structured log record: a severity level and a message text.
/// Produced on the kernel side by the probe handlers and forwarded
/// verbatim to every subscriber.
pub struct LogMessage {
    pub level: String,
    pub message: String,
}

/// The severity of a log record.
#[derive(Clone, Copy, PartialEq, Eq, Structural)]
pub enum LogLevel {
    Info,
    Warn,
    Error,
}

impl LogLevel {
    /// The wire name of the level.
    pub open spec fn spec_name(self) -> Seq<char> {
        match self {
            LogLevel::Info => "info"@,
            LogLevel::Warn => "warn"@,
            LogLevel::Error => "error"@,
        }
    }

    /// The wire name of the level, as an owned string.
    pub fn name(self) -> (r: String)
        ensures
            r@ == self.spec_name(),
    {
        match self {
            LogLevel::Info => String::from_str("info"),
            LogLevel::Warn => String::from_str("warn"),
            LogLevel::Error => String::from_str("error"),
        }
    }
}

impl LogMessage {
    /// Builds the record for `level` and `message`.
    pub fn new(level: LogLevel, message: String) -> (r: LogMessage)
        ensures
            r.level@ == level.spec_name(),
            r.message@ == message@,
    {
        LogMessage { level: level.name(), message }
    }
}

/// The byte that stands for the hexadecimal digit `d` (lower case).
pub open spec fn hex_digit(d: int) -> u8 {
    if d < 10 {
        (0x30 + d) as u8
    } else {
        (0x57 + d) as u8
    }
}

/// How one byte of a string appears inside a JSON string: quote and
/// backslash get a two-byte escape, the named control characters get
/// theirs, every other control character becomes a six-byte `\u00..`
/// escape, and all remaining bytes stand for themselves.
pub open spec fn escape_byte(b: u8) -> Seq<u8> {
    if b == 0x22 {
        seq![0x5Cu8, 0x22]
    } else if b == 0x5C {
        seq![0x5Cu8, 0x5C]
    } else if b == 0x08 {
        seq![0x5Cu8, 0x62]
    } else if b == 0x09 {
        seq![0x5Cu8, 0x74]
    } else if b == 0x0A {
        seq![0x5Cu8, 0x6E]
    } else if b == 0x0C {
        seq![0x5Cu8, 0x66]
    } else if b == 0x0D {
        seq![0x5Cu8, 0x72]
    } else if b < 0x20 {
        seq![0x5Cu8, 0x75, 0x30, 0x30, hex_digit(b as int / 16), hex_digit(b as int % 16)]
    } else {
        seq![b]
    }
}

/// The JSON string-body escaping of a whole byte sequence.
pub open spec fn escape_bytes(s: Seq<u8>) -> Seq<u8>
    decreases s.len(),
{
    if s.len() == 0 {
        Seq::empty()
    } else {
        escape_bytes(s.drop_last()) + escape_byte(s.last())
    }
}

/// The bytes `{"level":"`.
pub open spec fn record_prefix() -> Seq<u8> {
    seq![0x7Bu8, 0x22, 0x6C, 0x65, 0x76, 0x65, 0x6C, 0x22, 0x3A, 0x22]
}

/// The bytes `","message":"`.
pub open spec fn record_mid() -> Seq<u8> {
    seq![0x22u8, 0x2C, 0x22, 0x6D, 0x65, 0x73, 0x73, 0x61, 0x67, 0x65, 0x22, 0x3A, 0x22]
}

/// The bytes `"}`.
pub open spec fn record_suffix() -> Seq<u8> {
    seq![0x22u8, 0x7D]
}

/// The full JSON wire form of a record: one object with the `level`
/// field first and the `message` field second, both as JSON strings
/// over the UTF-8 bytes of the texts.
pub open spec fn json_record(level: Seq<char>, message: Seq<char>) -> Seq<u8> {
    record_prefix() + escape_bytes(encode_utf8(level)) + record_mid() + escape_bytes(
        encode_utf8(message),
    ) + record_suffix()
}

/// Appends the escaped form of one byte.
fn push_escaped_byte(out: &mut Vec<u8>, b: u8)
    ensures
        final(out)@ == old(out)@ + escape_byte(b),
{
    if b == 0x22 {
        out.push(0x5C);
        out.push(0x22);
    } else if b == 0x5C {
        out.push(0x5C);
        out.push(0x5C);
    } else if b == 0x08 {
        out.push(0x5C);
        out.push(0x62);
    } else if b == 0x09 {
        out.push(0x5C);
        out.push(0x74);
    } else if b == 0x0A {
        out.push(0x5C);
        out.push(0x6E);
    } else if b == 0x0C {
        out.push(0x5C);
        out.push(0x66);
    } else if b == 0x0D {
        out.push(0x5C);
        out.push(0x72);
    } else if b < 0x20 {
        out.push(0x5C);
        out.push(0x75);
        out.push(0x30);
        out.push(0x30);
        let hi: u8 = b / 16;
        let lo: u8 = b % 16;
        out.push(if hi < 10 { 0x30 + hi } else { 0x57 + hi });
        out.push(if lo < 10 { 0x30 + lo } else { 0x57 + lo });
    } else {
        out.push(b);
    }
    proof {
        assert(out@ =~= old(out)@ + escape_byte(b));
    }
}

/// Appends the JSON string-body escaping of `bytes`.
fn push_escaped(out: &mut Vec<u8>, bytes: &Vec<u8>)
    ensures
        final(out)@ == old(out)@ + escape_bytes(bytes@),
{
    let n = bytes.len();
    let mut i: usize = 0;
    while i < n
        invariant
            n == bytes@.len(),
            i <= n,
            out@ == old(out)@ + escape_bytes(bytes@.take(i as int)),
        decreases n - i,
    {
        push_escaped_byte(out, bytes[i]);
        proof {
            assert(bytes@.take(i + 1 as int).drop_last() =~= bytes@.take(i as int));
            assert(bytes@.take(i + 1 as int).last() == bytes@[i as int]);
        }
        i = i + 1;
    }
    proof {
        assert(bytes@.take(n as int) =~= bytes@);
    }
}

/// Encodes a record into its JSON wire form.
pub fn encode_log_message(m: &LogMessage) -> (r: Vec<u8>)
    ensures
        r@ == json_record(m.level@, m.message@),
{
    let mut out: Vec<u8> = Vec::new();
    out.push(0x7B);
    out.push(0x22);
    out.push(0x6C);
    out.push(0x65);
    out.push(0x76);
    out.push(0x65);
    out.push(0x6C);
    out.push(0x22);
    out.push(0x3A);
    out.push(0x22);
    proof {
        assert(out@ =~= record_prefix());
    }
    let level_bytes = m.level.as_str().as_bytes_vec();
    push_escaped(&mut out, &level_bytes);
    let ghost after_level = out@;
    out.push(0x22);
    out.push(0x2C);
    out.push(0x22);
    out.push(0x6D);
    out.push(0x65);
    out.push(0x73);
    out.push(0x73);
    out.push(0x61);
    out.push(0x67);
    out.push(0x65);
    out.push(0x22);
    out.push(0x3A);
    out.push(0x22);
    proof {
        assert(out@ =~= after_level + record_mid());
    }
    let message_bytes = m.message.as_str().as_bytes_vec();
    push_escaped(&mut out, &message_bytes);
    let ghost after_message = out@;
    out.push(0x22);
    out.push(0x7D);
    proof {
        assert(out@ =~= after_message + record_suffix());
        assert(out@ =~= json_record(m.level@, m.message@));
    }
    out
}

} // verus!

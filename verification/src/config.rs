//! Validation of the process configuration: the trading symbol is
//! lowercased, the port and log level are parsed exactly. The listen
//! address is carried through opaquely; binding it is the embedding
//! binary's business.

use vstd::prelude::*;

use crate::decimal::all_digits;
use crate::decimal::digits_val;
use crate::decimal::parse_unsigned;
use crate::scan::bytes_eq;

verus! {

/// The log verbosity names accepted on the command line.
#[derive(Clone, Copy, Debug, PartialEq, Eq, Structural)]
pub enum LogLevel {
    Trace,
    Debug,
    Info,
    Warn,
    Error,
}

/// Why the configuration was rejected.
#[derive(Clone, Copy, Debug, PartialEq, Eq, Structural)]
pub enum ConfigError {
    /// The port is not a decimal number up to 65535.
    InvalidPort,
    /// The log level is none of the five accepted names.
    InvalidLogLevel,
}

/// ASCII lowercase of one byte.
pub open spec fn lower_byte(b: u8) -> u8 {
    if 65 <= b <= 90 {
        (b + 32) as u8
    } else {
        b
    }
}

/// ASCII lowercase of a byte string.
pub open spec fn lower_bytes(s: Seq<u8>) -> Seq<u8> {
    s.map_values(|b: u8| lower_byte(b))
}

/// Executable counterpart of [`lower_bytes`].
pub fn to_ascii_lowercase(s: &[u8]) -> (r: Vec<u8>)
    ensures
        r@ == lower_bytes(s@),
{
    let n = s.len();
    let mut r: Vec<u8> = Vec::new();
    let mut i: usize = 0;
    while i < n
        invariant
            i <= n == s@.len(),
            r@.len() == i,
            forall|k: int| 0 <= k < i ==> r@[k] == lower_byte(#[trigger] s@[k]),
        decreases n - i,
    {
        let b = s[i];
        if b >= 65 && b <= 90 {
            r.push(b + 32);
        } else {
            r.push(b);
        }
        i = i + 1;
    }
    proof {
        assert(r@ =~= lower_bytes(s@));
    }
    r
}

/// The name `trace`, lowercased.
pub open spec fn name_trace() -> Seq<u8> {
    seq![116u8, 114, 97, 99, 101]
}

/// The name `debug`, lowercased.
pub open spec fn name_debug() -> Seq<u8> {
    seq![100u8, 101, 98, 117, 103]
}

/// The name `info`, lowercased.
pub open spec fn name_info() -> Seq<u8> {
    seq![105u8, 110, 102, 111]
}

/// The name `warn`, lowercased.
pub open spec fn name_warn() -> Seq<u8> {
    seq![119u8, 97, 114, 110]
}

/// The name `error`, lowercased.
pub open spec fn name_error() -> Seq<u8> {
    seq![101u8, 114, 114, 111, 114]
}

/// The log level named by `s`, case-insensitively.
pub open spec fn spec_log_level(s: Seq<u8>) -> Option<LogLevel> {
    let l = lower_bytes(s);
    if l == name_trace() {
        Some(LogLevel::Trace)
    } else if l == name_debug() {
        Some(LogLevel::Debug)
    } else if l == name_info() {
        Some(LogLevel::Info)
    } else if l == name_warn() {
        Some(LogLevel::Warn)
    } else if l == name_error() {
        Some(LogLevel::Error)
    } else {
        None
    }
}

fn name_vec(b0: u8, b1: u8, b2: u8, b3: u8, b4: u8, short: bool) -> (r: Vec<u8>)
    ensures
        !short ==> r@ == seq![b0, b1, b2, b3, b4],
        short ==> r@ == seq![b0, b1, b2, b3],
{
    let mut v: Vec<u8> = Vec::new();
    v.push(b0);
    v.push(b1);
    v.push(b2);
    v.push(b3);
    if !short {
        v.push(b4);
        proof {
            assert(v@ =~= seq![b0, b1, b2, b3, b4]);
        }
    } else {
        proof {
            assert(v@ =~= seq![b0, b1, b2, b3]);
        }
    }
    v
}

/// Parse a log-level name, case-insensitively.
pub fn parse_log_level(s: &[u8]) -> (r: Option<LogLevel>)
    ensures
        r == spec_log_level(s@),
{
    let l = to_ascii_lowercase(s);
    let trace = name_vec(116, 114, 97, 99, 101, false);
    let debug = name_vec(100, 101, 98, 117, 103, false);
    let info = name_vec(105, 110, 102, 111, 0, true);
    let warn = name_vec(119, 97, 114, 110, 0, true);
    let error = name_vec(101, 114, 114, 111, 114, false);
    if bytes_eq(l.as_slice(), trace.as_slice()) {
        Some(LogLevel::Trace)
    } else if bytes_eq(l.as_slice(), debug.as_slice()) {
        Some(LogLevel::Debug)
    } else if bytes_eq(l.as_slice(), info.as_slice()) {
        Some(LogLevel::Info)
    } else if bytes_eq(l.as_slice(), warn.as_slice()) {
        Some(LogLevel::Warn)
    } else if bytes_eq(l.as_slice(), error.as_slice()) {
        Some(LogLevel::Error)
    } else {
        None
    }
}

/// The port named by `s`: a run of one to eighteen digits valuing at
/// most 65535.
pub open spec fn spec_port(s: Seq<u8>) -> Option<u16> {
    if all_digits(s) && 1 <= s.len() <= 18 && digits_val(s) <= 65535 {
        Some(digits_val(s) as u16)
    } else {
        None
    }
}

/// Parse a port number.
pub fn parse_port(s: &[u8]) -> (r: Option<u16>)
    ensures
        r == spec_port(s@),
{
    match parse_unsigned(s) {
        Some(v) => if v <= 65535 {
            Some(v as u16)
        } else {
            None
        },
        None => None,
    }
}

/// The validated process configuration.
#[derive(Debug)]
pub struct Config {
    /// The trading symbol, lowercased.
    pub symbol: Vec<u8>,
    /// The listen address as given; parsed and bound outside the
    /// library.
    pub host: Vec<u8>,
    pub port: u16,
    pub log_level: LogLevel,
}

impl Config {
    /// Validate the raw command-line values. The port is checked
    /// first, then the log level; the symbol is lowercased and the
    /// host carried through unchanged.
    pub fn build(symbol: &[u8], host: &[u8], port_text: &[u8], log_level_text: &[u8]) -> (r: Result<
        Config,
        ConfigError,
    >)
        ensures
            (r is Ok) <==> (spec_port(port_text@) is Some && spec_log_level(log_level_text@)
                is Some),
            match r {
                Ok(c) => c.symbol@ == lower_bytes(symbol@) && c.host@ == host@ && Some(c.port)
                    == spec_port(port_text@) && Some(c.log_level) == spec_log_level(
                    log_level_text@,
                ),
                Err(e) => e == (if spec_port(port_text@) is None {
                    ConfigError::InvalidPort
                } else {
                    ConfigError::InvalidLogLevel
                }),
            },
    {
        let port = match parse_port(port_text) {
            Some(p) => p,
            None => {
                return Err(ConfigError::InvalidPort);
            },
        };
        let log_level = match parse_log_level(log_level_text) {
            Some(l) => l,
            None => {
                return Err(ConfigError::InvalidLogLevel);
            },
        };
        let symbol_lower = to_ascii_lowercase(symbol);
        let host_copy = vstd::slice::slice_to_vec(host);
        Ok(Config { symbol: symbol_lower, host: host_copy, port, log_level })
    }
}

} // verus!

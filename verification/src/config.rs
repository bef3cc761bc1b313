//! The command line: server address, server port, output file, file size.

use vstd::prelude::*;
use vstd::slice::slice_subrange;
use vstd::utf8::encode_utf8;
use crate::ascii::{decimal_value, find_byte, index_of_byte, is_decimal, parse_decimal};
use crate::downloader::ServerAddress;

verus! {

pub const DOT: u8 = 46;

/// Why the arguments are no configuration.
#[derive(Debug, Clone, Copy, PartialEq, Eq, Structural)]
pub enum ConfigError {
    MissingAddress,
    InvalidAddress,
    MissingPort,
    InvalidPort,
    MissingFileName,
    MissingSize,
    InvalidSize,
}

/// One part of a dotted address: one to three digits, no leading zero
/// before another digit, and a value up to 255.
pub open spec fn parsed_octet(s: Seq<u8>) -> Option<u8> {
    if is_decimal(s) && s.len() <= 3 && (s.len() == 1 || s[0] != 48) && decimal_value(s) <= 255 {
        Some(decimal_value(s) as u8)
    } else {
        None
    }
}

/// The number of an address from its four parts, the first part most significant.
pub open spec fn address_of(a: u8, b: u8, c: u8, d: u8) -> u32 {
    (a * 16777216 + b * 65536 + c * 256 + d) as u32
}

/// An IPv4 address in dotted form: four parts separated by three dots.
pub open spec fn parsed_ipv4(s: Seq<u8>) -> Option<u32> {
    let d1 = index_of_byte(s, DOT, 0);
    let d2 = index_of_byte(s, DOT, d1 + 1);
    let d3 = index_of_byte(s, DOT, d2 + 1);
    if d3 >= s.len() {
        None
    } else {
        match (
            parsed_octet(s.subrange(0, d1)),
            parsed_octet(s.subrange(d1 + 1, d2)),
            parsed_octet(s.subrange(d2 + 1, d3)),
            parsed_octet(s.subrange(d3 + 1, s.len() as int)),
        ) {
            (Some(a), Some(b), Some(c), Some(d)) => Some(address_of(a, b, c, d)),
            _ => None,
        }
    }
}

/// A port: an unsigned decimal number up to 65535.
pub open spec fn parsed_port(s: Seq<u8>) -> Option<u16> {
    if is_decimal(s) && decimal_value(s) <= 65535 {
        Some(decimal_value(s) as u16)
    } else {
        None
    }
}

/// A file size: an unsigned decimal number that fits the machine word.
pub open spec fn parsed_size(s: Seq<u8>) -> Option<usize> {
    crate::ascii::parsed_decimal(s)
}

/// What the arguments configure, or the first thing wrong with them. The
/// first argument is the program's name; those after the fifth are ignored.
/// Each argument is read as the bytes of its UTF-8 form.
pub open spec fn parsed_config(args: Seq<String>) -> Result<
    (ServerAddress, Seq<char>, usize),
    ConfigError,
> {
    if args.len() < 2 {
        Err(ConfigError::MissingAddress)
    } else {
        match parsed_ipv4(encode_utf8(args[1]@)) {
            None => Err(ConfigError::InvalidAddress),
            Some(ip) => if args.len() < 3 {
                Err(ConfigError::MissingPort)
            } else {
                match parsed_port(encode_utf8(args[2]@)) {
                    None => Err(ConfigError::InvalidPort),
                    Some(port) => if args.len() < 4 {
                        Err(ConfigError::MissingFileName)
                    } else if args.len() < 5 {
                        Err(ConfigError::MissingSize)
                    } else {
                        match parsed_size(encode_utf8(args[4]@)) {
                            None => Err(ConfigError::InvalidSize),
                            Some(size) => Ok((ServerAddress { ip, port }, args[3]@, size)),
                        }
                    },
                }
            },
        }
    }
}

pub fn parse_octet(s: &[u8]) -> (r: Option<u8>)
    ensures
        r == parsed_octet(s@),
{
    if s.len() == 0 || s.len() > 3 {
        return None;
    }
    if s.len() > 1 && s[0] == 48 {
        return None;
    }
    match parse_decimal(s) {
        Some(v) => if v <= 255 {
            Some(v as u8)
        } else {
            None
        },
        None => None,
    }
}

pub fn parse_ipv4(s: &[u8]) -> (r: Option<u32>)
    ensures
        r == parsed_ipv4(s@),
{
    let d1 = find_byte(s, DOT, 0);
    if d1 >= s.len() {
        return None;
    }
    let d2 = find_byte(s, DOT, d1 + 1);
    if d2 >= s.len() {
        return None;
    }
    let d3 = find_byte(s, DOT, d2 + 1);
    if d3 >= s.len() {
        return None;
    }
    let a = parse_octet(slice_subrange(s, 0, d1));
    let b = parse_octet(slice_subrange(s, d1 + 1, d2));
    let c = parse_octet(slice_subrange(s, d2 + 1, d3));
    let d = parse_octet(slice_subrange(s, d3 + 1, s.len()));
    match (a, b, c, d) {
        (Some(a), Some(b), Some(c), Some(d)) => {
            let a: u32 = a as u32;
            let b: u32 = b as u32;
            let c: u32 = c as u32;
            let d: u32 = d as u32;
            Some(a * 16777216 + b * 65536 + c * 256 + d)
        },
        _ => None,
    }
}

pub fn parse_port(s: &[u8]) -> (r: Option<u16>)
    ensures
        r == parsed_port(s@),
{
    match parse_decimal(s) {
        Some(v) => if v <= 65535 {
            Some(v as u16)
        } else {
            None
        },
        None => None,
    }
}

pub struct DownloaderConfig {
    pub address: ServerAddress,
    pub file_name: String,
    pub size: usize,
}

impl DownloaderConfig {
    /// Reads the configuration from the arguments of the program.
    pub fn try_from(args: &Vec<String>) -> (r: Result<Self, ConfigError>)
        ensures
            match r {
                Ok(config) => parsed_config(args@) == Ok::<
                    (ServerAddress, Seq<char>, usize),
                    ConfigError,
                >((config.address, config.file_name@, config.size)),
                Err(e) => parsed_config(args@) == Err::<
                    (ServerAddress, Seq<char>, usize),
                    ConfigError,
                >(e),
            },
    {
        if args.len() < 2 {
            return Err(ConfigError::MissingAddress);
        }
        let ip = match parse_ipv4(args[1].as_str().as_bytes()) {
            Some(ip) => ip,
            None => {
                return Err(ConfigError::InvalidAddress);
            },
        };
        if args.len() < 3 {
            return Err(ConfigError::MissingPort);
        }
        let port = match parse_port(args[2].as_str().as_bytes()) {
            Some(port) => port,
            None => {
                return Err(ConfigError::InvalidPort);
            },
        };
        if args.len() < 4 {
            return Err(ConfigError::MissingFileName);
        }
        if args.len() < 5 {
            return Err(ConfigError::MissingSize);
        }
        let size = match parse_decimal(args[4].as_str().as_bytes()) {
            Some(size) => size,
            None => {
                return Err(ConfigError::InvalidSize);
            },
        };
        let file_name = args[3].clone();
        Ok(Self { address: ServerAddress { ip, port }, file_name, size })
    }
}

} // verus!

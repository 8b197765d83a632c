//! The `[log]` section.
use crate::logs::{level_of, parse_level, Log, RollingRotation};
use crate::parse::{kv_result, parse_key_value_pair, ConfigError};
use crate::text::{chars_of, lower, parse_decimal_chars, parse_unsigned, to_ascii_lower};
use vstd::prelude::*;

verus! {

/// The rotation a value names, in any ASCII case.
pub open spec fn rotation_of(v: Seq<char>) -> Option<RollingRotation> {
    let l = lower(v);
    if l == seq!['h', 'o', 'u', 'r', 'l', 'y'] {
        Some(RollingRotation::Hourly)
    } else if l == seq!['d', 'a', 'i', 'l', 'y'] {
        Some(RollingRotation::Daily)
    } else if l == seq!['w', 'e', 'e', 'k', 'l', 'y'] {
        Some(RollingRotation::Weekly)
    } else if l == seq!['m', 'o', 'n', 't', 'h', 'l', 'y'] {
        Some(RollingRotation::Monthly)
    } else if l == seq!['n', 'e', 'v', 'e', 'r'] {
        Some(RollingRotation::Never)
    } else {
        None
    }
}

fn same(a: &Vec<char>, b: &[char]) -> (r: bool)
    ensures
        r == (a@ == b@),
{
    let v = crate::text::slice_chars(b, 0, b.len());
    assert(v@ =~= b@);
    crate::text::str_eq(crate::text::string_of(a.as_slice()).as_str(), crate::text::string_of(v.as_slice()).as_str())
}

/// Reads a line of the `[log]` section: `level`, `dir`, `max-files` or
/// `rotation`. The directory's existence is checked where the file system is.
pub fn parse(row: usize, line: &str, log: &mut Log) -> (r: Result<(), ConfigError>)
    requires
        line@.len() < usize::MAX,
    ensures
        match crate::config::model::log_line(crate::config::model::log_view(*old(log)), line@) {
            Some(l) => r is Ok && crate::config::model::log_view(*final(log)) == l,
            None => r is Err,
        },
        kv_result(line@) is Err ==> r is Err && *final(log) == *old(log),
        kv_result(line@) matches Ok((k, v, _)) ==> {
            if k == seq!['l', 'e', 'v', 'e', 'l'] {
                match level_of(v) {
                    Some(l) => r is Ok && *final(log) == (Log { level: l, ..*old(log) }),
                    None => r is Err && *final(log) == *old(log),
                }
            } else if k == seq!['d', 'i', 'r'] {
                r is Ok && (final(log).dir matches Some(d) && d@ == v) && final(log).level == old(log).level
                    && final(log).max_files == old(log).max_files && final(log).rotation == old(log).rotation
            } else if k == seq!['m', 'a', 'x', '-', 'f', 'i', 'l', 'e', 's'] {
                match parse_unsigned(v, 10, usize::MAX as nat) {
                    Some(n) => r is Ok && *final(log) == (Log { max_files: Some(n as usize), ..*old(log) }),
                    None => r is Err && *final(log) == *old(log),
                }
            } else if k == seq!['r', 'o', 't', 'a', 't', 'i', 'o', 'n'] {
                match rotation_of(v) {
                    Some(x) => r is Ok && *final(log) == (Log { rotation: x, ..*old(log) }),
                    None => r is Err && *final(log) == *old(log),
                }
            } else {
                r is Err && *final(log) == *old(log)
            }
        },
{
    let (key, value, _) = match parse_key_value_pair(line) {
        Ok(kv) => kv,
        Err((e, col)) => {
            return Err(ConfigError::Syntax { row, column: col, error: e });
        },
    };
    let k = chars_of(key.as_str());
    if same(&k, ['l', 'e', 'v', 'e', 'l'].as_slice()) {
        assert(['l', 'e', 'v', 'e', 'l']@ =~= seq!['l', 'e', 'v', 'e', 'l']);
        match parse_level(value.as_str()) {
            Some(l) => {
                log.level = l;
                Ok(())
            },
            None => Err(ConfigError::Value(value)),
        }
    } else if same(&k, ['d', 'i', 'r'].as_slice()) {
        assert(['l', 'e', 'v', 'e', 'l']@ =~= seq!['l', 'e', 'v', 'e', 'l']);
        assert(['d', 'i', 'r']@ =~= seq!['d', 'i', 'r']);
        log.dir = Some(value);
        Ok(())
    } else if same(&k, ['m', 'a', 'x', '-', 'f', 'i', 'l', 'e', 's'].as_slice()) {
        assert(['l', 'e', 'v', 'e', 'l']@ =~= seq!['l', 'e', 'v', 'e', 'l']);
        assert(['d', 'i', 'r']@ =~= seq!['d', 'i', 'r']);
        assert(['m', 'a', 'x', '-', 'f', 'i', 'l', 'e', 's']@ =~= seq!['m', 'a', 'x', '-', 'f', 'i', 'l', 'e', 's']);
        let vc = chars_of(value.as_str());
        match parse_decimal_chars(vc.as_slice(), usize::MAX as u64) {
            Some(n) => {
                log.max_files = Some(n as usize);
                Ok(())
            },
            None => Err(ConfigError::Value(value)),
        }
    } else if same(&k, ['r', 'o', 't', 'a', 't', 'i', 'o', 'n'].as_slice()) {
        assert(['l', 'e', 'v', 'e', 'l']@ =~= seq!['l', 'e', 'v', 'e', 'l']);
        assert(['d', 'i', 'r']@ =~= seq!['d', 'i', 'r']);
        assert(['m', 'a', 'x', '-', 'f', 'i', 'l', 'e', 's']@ =~= seq!['m', 'a', 'x', '-', 'f', 'i', 'l', 'e', 's']);
        assert(['r', 'o', 't', 'a', 't', 'i', 'o', 'n']@ =~= seq!['r', 'o', 't', 'a', 't', 'i', 'o', 'n']);
        let l = chars_of(to_ascii_lower(value.as_str()).as_str());
        let x = if same(&l, ['h', 'o', 'u', 'r', 'l', 'y'].as_slice()) {
            RollingRotation::Hourly
        } else if same(&l, ['d', 'a', 'i', 'l', 'y'].as_slice()) {
            RollingRotation::Daily
        } else if same(&l, ['w', 'e', 'e', 'k', 'l', 'y'].as_slice()) {
            RollingRotation::Weekly
        } else if same(&l, ['m', 'o', 'n', 't', 'h', 'l', 'y'].as_slice()) {
            RollingRotation::Monthly
        } else if same(&l, ['n', 'e', 'v', 'e', 'r'].as_slice()) {
            RollingRotation::Never
        } else {
            assert(['h', 'o', 'u', 'r', 'l', 'y']@ =~= seq!['h', 'o', 'u', 'r', 'l', 'y']);
            assert(['d', 'a', 'i', 'l', 'y']@ =~= seq!['d', 'a', 'i', 'l', 'y']);
            assert(['w', 'e', 'e', 'k', 'l', 'y']@ =~= seq!['w', 'e', 'e', 'k', 'l', 'y']);
            assert(['m', 'o', 'n', 't', 'h', 'l', 'y']@ =~= seq!['m', 'o', 'n', 't', 'h', 'l', 'y']);
            assert(['n', 'e', 'v', 'e', 'r']@ =~= seq!['n', 'e', 'v', 'e', 'r']);
            return Err(ConfigError::Value(value));
        };
        assert(['h', 'o', 'u', 'r', 'l', 'y']@ =~= seq!['h', 'o', 'u', 'r', 'l', 'y']);
        assert(['d', 'a', 'i', 'l', 'y']@ =~= seq!['d', 'a', 'i', 'l', 'y']);
        assert(['w', 'e', 'e', 'k', 'l', 'y']@ =~= seq!['w', 'e', 'e', 'k', 'l', 'y']);
        assert(['m', 'o', 'n', 't', 'h', 'l', 'y']@ =~= seq!['m', 'o', 'n', 't', 'h', 'l', 'y']);
        assert(['n', 'e', 'v', 'e', 'r']@ =~= seq!['n', 'e', 'v', 'e', 'r']);
        log.rotation = x;
        Ok(())
    } else {
        assert(['l', 'e', 'v', 'e', 'l']@ =~= seq!['l', 'e', 'v', 'e', 'l']);
        assert(['d', 'i', 'r']@ =~= seq!['d', 'i', 'r']);
        assert(['m', 'a', 'x', '-', 'f', 'i', 'l', 'e', 's']@ =~= seq!['m', 'a', 'x', '-', 'f', 'i', 'l', 'e', 's']);
        assert(['r', 'o', 't', 'a', 't', 'i', 'o', 'n']@ =~= seq!['r', 'o', 't', 'a', 't', 'i', 'o', 'n']);
        Err(ConfigError::UnknownKey(key))
    }
}

} // verus!

//! The `[metadata]` section.
use crate::config::hosts::{file_contents, read_hosts};
use crate::config::{default_group, Inner};
use crate::config::model::{files_view, metadata_line};
use crate::parse::{kv_result, parse_key_value_pair, ConfigError};
use crate::text::{chars_of, parse_decimal_chars, parse_unsigned, str_eq};
use vstd::prelude::*;

verus! {

/// Whether an `access_log` value turns the access log off: `off`, `false`
/// or `0`; anything else leaves it on.
pub open spec fn turns_off(v: Seq<char>) -> bool {
    v == seq!['o', 'f', 'f'] || v == seq!['f', 'a', 'l', 's', 'e'] || v == seq!['0']
}

/// Reads a line of the `[metadata]` section: `addn-host` (a host file for
/// the default group), `cache-size` (a 32-bit count; 0 disables the cache),
/// `bind`, `mmdb` (the GeoIP database) or `access_log`.
pub fn parse(row: usize, line: &str, inner: &mut Inner, files: &Vec<(String, String)>) -> (r: Result<(), ConfigError>)
    requires
        line@.len() < usize::MAX,
    ensures
        match metadata_line(old(inner).view(), line@, files_view(files@)) {
            Some(cv) => r is Ok && final(inner).view() == cv,
            None => r is Err,
        },
        final(inner).groups() == old(inner).groups(),
        final(inner).servers() == old(inner).servers(),
        final(inner).rules() == old(inner).rules(),
        final(inner).log == old(inner).log,
{
    let (key, value, _) = match parse_key_value_pair(line) {
        Ok(kv) => kv,
        Err((e, col)) => {
            return Err(ConfigError::Syntax { row, column: col, error: e });
        },
    };
    let addn = "addn-host";
    let cache = "cache-size";
    let bind = "bind";
    let mmdb = "mmdb";
    let access = "access_log";
    let off = "off";
    let f = "false";
    let zero = "0";
    proof {
        reveal_strlit("addn-host");
        reveal_strlit("cache-size");
        reveal_strlit("bind");
        reveal_strlit("mmdb");
        reveal_strlit("access_log");
        reveal_strlit("off");
        reveal_strlit("false");
        reveal_strlit("0");
        assert(bind@[0] != mmdb@[0]);
        assert(off@ =~= seq!['o', 'f', 'f']);
        assert(addn@ =~= seq!['a', 'd', 'd', 'n', '-', 'h', 'o', 's', 't']);
        assert(cache@ =~= seq!['c', 'a', 'c', 'h', 'e', '-', 's', 'i', 'z', 'e']);
        assert(bind@ =~= seq!['b', 'i', 'n', 'd']);
        assert(mmdb@ =~= seq!['m', 'm', 'd', 'b']);
        assert(access@ =~= seq!['a', 'c', 'c', 'e', 's', 's', '_', 'l', 'o', 'g']);
        assert(f@ =~= seq!['f', 'a', 'l', 's', 'e']);
        assert(zero@ =~= seq!['0']);
    }
    if str_eq(key.as_str(), addn) {
        let contents = match file_contents(files, value.as_str()) {
            Some(c) => c,
            None => {
                return Err(ConfigError::MissingFile(value));
            },
        };
        let entries = read_hosts(contents.as_str())?;
        inner.add_hosts(default_group().to_string(), entries);
        inner.metadata.addn_host = Some(value);
        assert(key@ != seq!['b', 'i', 'n', 'd']);
        assert(key@ != seq!['m', 'm', 'd', 'b']);
        assert(key@ != seq!['c', 'a', 'c', 'h', 'e', '-', 's', 'i', 'z', 'e']);
        assert(key@ != seq!['a', 'c', 'c', 'e', 's', 's', '_', 'l', 'o', 'g']);
        Ok(())
    } else if str_eq(key.as_str(), cache) {
        let vc = chars_of(value.as_str());
        match parse_decimal_chars(vc.as_slice(), 0xFFFF_FFFF) {
            Some(n) => {
                inner.metadata.cache_size = n as usize;
                Ok(())
            },
            None => Err(ConfigError::Value(value)),
        }
    } else if str_eq(key.as_str(), bind) {
        inner.metadata.bind = value;
        assert(key@ != seq!['m', 'm', 'd', 'b']);
        assert(key@ != seq!['a', 'c', 'c', 'e', 's', 's', '_', 'l', 'o', 'g']);
        Ok(())
    } else if str_eq(key.as_str(), mmdb) {
        inner.metadata.mmdb = Some(value);
        assert(key@ != seq!['b', 'i', 'n', 'd']);
        Ok(())
    } else if str_eq(key.as_str(), access) {
        let on = !(str_eq(value.as_str(), off) || str_eq(value.as_str(), f) || str_eq(value.as_str(), zero));
        assert(on == !turns_off(value@));
        inner.metadata.access_log = on;
        assert(key@ != seq!['b', 'i', 'n', 'd']);
        assert(key@ != seq!['m', 'm', 'd', 'b']);
        assert(key@ != seq!['c', 'a', 'c', 'h', 'e', '-', 's', 'i', 'z', 'e']);
        Ok(())
    } else {
        Err(ConfigError::UnknownKey(key))
    }
}

} // verus!

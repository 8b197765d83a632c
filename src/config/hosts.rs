//! The `[hosts]` sections and host files: address overrides for names.
use crate::config::{default_name, list_of, Inner};
use crate::config::model::{entry_views, file_of, file_vals, files_view, group_vals, host_file_word, hosts_line, lemma_key_pos_view};
use crate::dns::IpAddress;
use crate::http::{trim, trimmed};
use crate::ip::{ip_of, parse_ip};
use crate::parse::{kv_result, parse_key_value_pair, ConfigError};
use crate::rules::{is_valid_name, name_ok};
use crate::seqs::key_pos;
use crate::text::{chars_of, has_prefix, lines, lines_of, slice_chars, starts_with, str_eq, string_of};
use vstd::prelude::*;

verus! {

/// The contents of the first provided file with this path, if any.
pub fn file_contents<'a>(files: &'a Vec<(String, String)>, path: &str) -> (r: Option<&'a String>)
    ensures
        match r {
            Some(c) => file_of(files_view(files@), path@) == Some(c@),
            None => file_of(files_view(files@), path@) is None,
        },
{
    proof {
        lemma_key_pos_view(files@, file_vals(), path@);
        crate::seqs::lemma_first_index_found(files@, crate::seqs::key_is::<String>(path@));
    }
    match crate::seqs::find_key(files, path) {
        Some(i) => Some(&files[i].1),
        None => None,
    }
}

/// A host name made fully qualified: a final dot is added when missing.
pub open spec fn fqdn(v: Seq<char>) -> Seq<char> {
    if v.len() > 0 && v.last() == '.' {
        v
    } else {
        v.push('.')
    }
}

/// What one line of a host file gives: nothing for a blank line or a
/// comment; an entry for an `address name` pair whose address reads and
/// whose (fully qualified) name is valid; otherwise an error.
pub open spec fn host_line(l: Seq<char>) -> Option<Option<(IpAddress, Seq<char>)>> {
    let t = trimmed(l);
    if t.len() == 0 || t[0] == '#' {
        Some(None)
    } else if t.len() >= usize::MAX - 1 {
        None
    } else {
        match kv_result(t) {
            Ok((k, v, _)) => match ip_of(k) {
                Some(a) => if name_ok(fqdn(v)) {
                    Some(Some((a, fqdn(v))))
                } else {
                    None
                },
                None => None,
            },
            Err(_) => None,
        }
    }
}

/// The entries of the lines of a host file, in order; `None` once a line fails.
pub open spec fn host_entries_of(ls: Seq<Seq<char>>) -> Option<Seq<(IpAddress, Seq<char>)>>
    decreases ls.len(),
{
    if ls.len() == 0 {
        Some(Seq::empty())
    } else {
        match host_entries_of(ls.drop_last()) {
            None => None,
            Some(prev) => match host_line(ls.last()) {
                None => None,
                Some(None) => Some(prev),
                Some(Some(e)) => Some(prev.push(e)),
            },
        }
    }
}


proof fn lemma_failure_stays(ls: Seq<Seq<char>>, k: int)
    requires
        0 <= k <= ls.len(),
        host_entries_of(ls.take(k)) is None,
    ensures
        host_entries_of(ls) is None,
    decreases ls.len() - k,
{
    if k < ls.len() {
        assert(ls.take(k + 1).drop_last() =~= ls.take(k));
        lemma_failure_stays(ls, k + 1);
    } else {
        assert(ls.take(k) =~= ls);
    }
}

/// Reads a host file: one `address name` pair per line; blank lines and
/// lines starting with `#` are skipped; a name without a final dot gets one.
pub fn read_hosts(text: &str) -> (r: Result<Vec<(IpAddress, String)>, ConfigError>)
    ensures
        match r {
            Ok(v) => host_entries_of(lines_of(text@)) == Some(entry_views(v@)),
            Err(_) => host_entries_of(lines_of(text@)) is None,
        },
{
    let ls = lines(text);
    let ghost lv = lines_of(text@);
    let mut out: Vec<(IpAddress, String)> = Vec::new();
    let mut i: usize = 0;
    while i < ls.len()
        invariant
            i <= ls@.len(),
            lv == lines_of(text@),
            ls@.len() == lv.len(),
            forall|j: int| 0 <= j < ls@.len() ==> #[trigger] ls@[j]@ == lv[j],
            host_entries_of(lv.take(i as int)) == Some(entry_views(out@)),
        decreases ls@.len() - i,
    {
        assert(lv.take(i + 1).drop_last() =~= lv.take(i as int));
        assert(lv.take(i + 1).last() == ls@[i as int]@);
        let line = trim(string_of(ls[i].as_slice()).as_str());
        let lc = chars_of(line.as_str());
        if lc.len() == 0 || lc[0] == '#' {
            i = i + 1;
            continue;
        }
        if lc.len() >= usize::MAX - 1 {
            proof {
                lemma_failure_stays(lv, i + 1);
            }
            return Err(ConfigError::Value(line));
        }
        let (key, value, _) = match parse_key_value_pair(line.as_str()) {
            Ok(kv) => kv,
            Err((e, col)) => {
                proof {
                    lemma_failure_stays(lv, i + 1);
                }
                return Err(ConfigError::Syntax { row: i + 1, column: col, error: e });
            },
        };
        let mut name = chars_of(value.as_str());
        if !(name.len() > 0 && name[name.len() - 1] == '.') {
            name.push('.');
        }
        let fqdn_text = string_of(name.as_slice());
        let kc = chars_of(key.as_str());
        let addr = match parse_ip(kc.as_slice()) {
            Some(a) => a,
            None => {
                proof {
                    lemma_failure_stays(lv, i + 1);
                }
                return Err(ConfigError::Address(key));
            },
        };
        if !is_valid_name(fqdn_text.as_str()) {
            proof {
                lemma_failure_stays(lv, i + 1);
            }
            return Err(ConfigError::Name(fqdn_text));
        }
        out.push((addr, fqdn_text));
        assert(entry_views(out@) =~= entry_views(out@.drop_last()).push((addr, fqdn(value@))));
        i = i + 1;
    }
    assert(lv.take(ls@.len() as int) =~= lv);
    Ok(out)
}

/// Reads a line of a `[hosts]` or `[hosts.<group>]` section: `address name`,
/// or the `@` directive with a path, which takes the entries of that host file. The group must be
/// `default` or a defined one.
pub fn parse(sub: &str, row: usize, line: &str, inner: &mut Inner, files: &Vec<(String, String)>) -> (r: Result<(), ConfigError>)
    requires
        line@.len() < usize::MAX,
    ensures
        match hosts_line(old(inner).view(), sub@, line@, files_view(files@)) {
            Some(cv) => r is Ok && final(inner).view() == cv,
            None => r is Err,
        },
        final(inner).groups() == old(inner).groups(),
        final(inner).servers() == old(inner).servers(),
        final(inner).rules() == old(inner).rules(),
        final(inner).metadata == old(inner).metadata,
{
    proof {
        lemma_key_pos_view(inner.groups@, group_vals(), sub@);
    }
    if !inner.is_known_group(sub) {
        return Err(ConfigError::UnknownGroup(sub.to_string()));
    }
    let t = chars_of(trim(line).as_str());
    let directive = ['@', 'i', 'n', 'c', 'l', 'u', 'd', 'e'];
    assert(directive@ =~= host_file_word());
    if starts_with(t.as_slice(), directive.as_slice()) {
        let rest = slice_chars(t.as_slice(), 8, t.len());
        assert(rest@ =~= trimmed(line@).skip(8));
        let path = trim(string_of(rest.as_slice()).as_str());
        let contents = match file_contents(files, path.as_str()) {
            Some(c) => c,
            None => {
                return Err(ConfigError::MissingFile(path));
            },
        };
        let entries = read_hosts(contents.as_str())?;
        inner.add_hosts(sub.to_string(), entries);
        Ok(())
    } else {
        let (key, value, _) = match parse_key_value_pair(line) {
            Ok(kv) => kv,
            Err((e, col)) => {
                return Err(ConfigError::Syntax { row, column: col, error: e });
            },
        };
        let kc = chars_of(key.as_str());
        let addr = match parse_ip(kc.as_slice()) {
            Some(a) => a,
            None => {
                return Err(ConfigError::Address(key));
            },
        };
        if !is_valid_name(value.as_str()) {
            return Err(ConfigError::Name(value));
        }
        let ghost n = value;
        let mut one: Vec<(IpAddress, String)> = Vec::new();
        one.push((addr, value));
        assert(entry_views(one@) =~= seq![(addr, n@)]);
        inner.add_hosts(sub.to_string(), one);
        Ok(())
    }
}


} // verus!

//! The `[server]` section: each group's upstream list.
use crate::config::{default_name, Inner};
use crate::config::model::{group_vals, lemma_key_pos_view, server_line, strings_view};
use crate::http::{trim, trimmed};
use crate::parse::{kv_result, parse_key_value_pair, ConfigError};
use crate::seqs::{key_pos, upsert};
use crate::text::{chars_of, split_chars, split_on, string_of};
use vstd::prelude::*;

verus! {

/// The trimmed comma-separated items of a list.
pub open spec fn items_of(s: Seq<char>) -> Seq<Seq<char>> {
    split_on(s, ',').map_values(|p: Seq<char>| trimmed(p))
}

/// Cuts a list at commas and trims each item.
pub fn split_list(s: &str) -> (r: Vec<String>)
    ensures
        r@.len() == items_of(s@).len(),
        forall|i: int| 0 <= i < r@.len() ==> #[trigger] r@[i]@ == items_of(s@)[i],
{
    let cs = chars_of(s);
    let parts = split_chars(cs.as_slice(), ',');
    let mut out: Vec<String> = Vec::new();
    let mut i: usize = 0;
    while i < parts.len()
        invariant
            cs@ == s@,
            parts@.len() == split_on(s@, ',').len(),
            forall|j: int| 0 <= j < parts@.len() ==> #[trigger] parts@[j]@ == split_on(s@, ',')[j],
            i <= parts@.len(),
            out@.len() == i,
            forall|j: int| 0 <= j < i ==> #[trigger] out@[j]@ == items_of(s@)[j],
        decreases parts@.len() - i,
    {
        let item = trim(string_of(parts[i].as_slice()).as_str());
        out.push(item);
        i = i + 1;
    }
    out
}

/// Reads a `group upstream[, upstream...]` line of the `[server]` section:
/// the group must be `default` or a defined group, and its upstream list
/// becomes the trimmed comma-separated items.
pub fn parse(row: usize, line: &str, inner: &mut Inner) -> (r: Result<(), ConfigError>)
    requires
        line@.len() < usize::MAX,
        forall|i: int| 0 <= i < old(inner).servers().len() ==> (#[trigger] old(inner).servers()[i]).1@.len() > 0,
    ensures
        match server_line(old(inner).view(), line@) {
            Some(cv) => r is Ok && final(inner).view() == cv,
            None => r is Err,
        },
        final(inner).groups() == old(inner).groups(),
        final(inner).hosts() == old(inner).hosts(),
        final(inner).rules() == old(inner).rules(),
        final(inner).metadata == old(inner).metadata,
        final(inner).log == old(inner).log,
        forall|i: int| 0 <= i < final(inner).servers().len() ==> (#[trigger] final(inner).servers()[i]).1@.len() > 0,
        old(inner).wf() ==> final(inner).wf(),
{
    let (key, value, _) = match parse_key_value_pair(line) {
        Ok(kv) => kv,
        Err((e, col)) => {
            return Err(ConfigError::Syntax { row, column: col, error: e });
        },
    };
    proof {
        lemma_key_pos_view(inner.groups@, group_vals(), key@);
    }
    if !inner.is_known_group(key.as_str()) {
        return Err(ConfigError::UnknownGroup(key));
    }
    let list = split_list(value.as_str());
    proof {
        assert(split_on(value@, ',').len() >= 1);
    }
    assert(strings_view(list@) =~= items_of(value@));
    inner.set_servers(key, list);
    Ok(())
}

} // verus!

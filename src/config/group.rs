//! The `[group]` section: which client addresses form each group.
use crate::config::{Inner, IpRange};
use crate::config::model::{group_line, member_seq};
use crate::config::server::{items_of, split_list};
use crate::ip::{member_of, parse_member, RangeError};
use crate::parse::{kv_result, parse_key_value_pair, ConfigError};
use crate::seqs::upsert;
use crate::text::chars_of;
use vstd::prelude::*;

verus! {

/// Reads a comma-separated list of group members; the first member that
/// does not read refuses the whole list.
pub fn parse_ip_range(input: &str) -> (r: Result<Vec<IpRange>, RangeError>)
    ensures
        match r {
            Ok(v) => v@.len() == items_of(input@).len() && forall|i: int|
                0 <= i < v@.len() ==> member_of(items_of(input@)[i]) == Ok::<IpRange, RangeError>(#[trigger] v@[i]),
            Err(e) => exists|i: int| 0 <= i < items_of(input@).len() && member_of(items_of(input@)[i]) == Err::<IpRange, RangeError>(e),
        },
{
    let items = split_list(input);
    let mut out: Vec<IpRange> = Vec::new();
    let mut i: usize = 0;
    while i < items.len()
        invariant
            items@.len() == items_of(input@).len(),
            forall|j: int| 0 <= j < items@.len() ==> #[trigger] items@[j]@ == items_of(input@)[j],
            i <= items@.len(),
            out@.len() == i,
            forall|j: int| 0 <= j < i ==> member_of(items_of(input@)[j]) == Ok::<IpRange, RangeError>(#[trigger] out@[j]),
        decreases items@.len() - i,
    {
        let cs = chars_of(items[i].as_str());
        match parse_member(cs.as_slice()) {
            Ok(m) => {
                out.push(m);
            },
            Err(e) => {
                assert(member_of(items_of(input@)[i as int]) == Err::<IpRange, RangeError>(e));
                return Err(e);
            },
        }
        i = i + 1;
    }
    Ok(out)
}

/// Reads a `group member[, member...]` line of the `[group]` section and
/// defines (or redefines) that group.
pub fn parse(row: usize, line: &str, inner: &mut Inner) -> (r: Result<(), ConfigError>)
    requires
        line@.len() < usize::MAX,
    ensures
        match group_line(old(inner).view(), line@) {
            Some(cv) => r is Ok && final(inner).view() == cv,
            None => r is Err,
        },
        final(inner).servers() == old(inner).servers(),
        final(inner).hosts() == old(inner).hosts(),
        final(inner).rules() == old(inner).rules(),
        final(inner).metadata == old(inner).metadata,
{
    let (key, value, _) = match parse_key_value_pair(line) {
        Ok(kv) => kv,
        Err((e, col)) => {
            return Err(ConfigError::Syntax { row, column: col, error: e });
        },
    };
    let ranges = match parse_ip_range(value.as_str()) {
        Ok(v) => v,
        Err(e) => {
            return Err(ConfigError::Member(e));
        },
    };
    assert(ranges@ =~= member_seq(value@));
    assert forall|i: int| 0 <= i < items_of(value@).len() implies (#[trigger] member_of(items_of(value@)[i])) is Ok by {
        assert(member_of(items_of(value@)[i]) == Ok::<IpRange, RangeError>(ranges@[i]));
    }
    let ghost (gk, gr) = (key, ranges);
    inner.set_group(key, ranges);
    assert(gk@ == kv_result(line@)->Ok_0.0);
    Ok(())
}

} // verus!

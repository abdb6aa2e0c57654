//! What holds of placements: how a server is found by where it is.

use vstd::prelude::*;

use crate::balance::{placement_key, wants_primary, wants_rr};
use crate::cluster::{placed, ClusterView, RowView};
use crate::config::Nanos;
use crate::laws::balance::lemma_add_contains;
use crate::laws::refresh::refresh_places_every_server;
use crate::text::split_dots;

verus! {

/// Whether a text has no dot in it.
pub open spec fn dotless(s: Seq<char>) -> bool {
    forall|i: int| 0 <= i < s.len() ==> #[trigger] s[i] != '.'
}

/// A text without a dot is one part.
pub proof fn lemma_one_part(s: Seq<char>)
    requires
        dotless(s),
    ensures
        split_dots(s) == seq![s],
    decreases s.len(),
{
    if s.len() > 0 {
        lemma_one_part(s.drop_last());
        assert(s.drop_last().push(s.last()) =~= s);
        assert(split_dots(s) =~= seq![s]);
    } else {
        assert(s =~= Seq::<char>::empty());
    }
}

/// A text without a dot, after a dot, is one more part.
proof fn lemma_next_part(s: Seq<char>, t: Seq<char>)
    requires
        dotless(t),
    ensures
        split_dots(s + "."@ + t) == split_dots(s).push(t),
    decreases t.len(),
{
    reveal_strlit(".");
    let all = s + "."@ + t;
    if t.len() > 0 {
        let rest = t.drop_last();
        lemma_next_part(s, rest);
        assert(all.drop_last() =~= s + "."@ + rest);
        assert(all.last() == t.last());
        assert(rest.push(t.last()) =~= t);
        assert(split_dots(s).push(rest).drop_last() =~= split_dots(s));
    } else {
        assert(all.drop_last() =~= s);
        assert(all.last() == '.');
        assert(t =~= Seq::<char>::empty());
    }
}

/// What comes after two dots does not change the first two parts.
proof fn lemma_first_parts(s: Seq<char>, t: Seq<char>)
    requires
        split_dots(s).len() > 2,
    ensures
        split_dots(s + t).len() > 2,
        split_dots(s + t)[0] == split_dots(s)[0],
        split_dots(s + t)[1] == split_dots(s)[1],
    decreases t.len(),
{
    if t.len() > 0 {
        lemma_first_parts(s, t.drop_last());
        assert((s + t).drop_last() =~= s + t.drop_last());
    } else {
        assert(s + t =~= s);
    }
}

/// The parts of `cloud.region.zone`, where neither `cloud` nor `region` has a dot
/// in it, begin with `cloud` and `region`.
proof fn lemma_parts(cloud: Seq<char>, region: Seq<char>, zone: Seq<char>)
    requires
        dotless(cloud),
        dotless(region),
    ensures
        ({
            let parts = split_dots(cloud + "."@ + region + "."@ + zone);
            &&& parts.len() > 2
            &&& parts[0] == cloud
            &&& parts[1] == region
            &&& dotless(zone) ==> parts[2] == zone
        }),
{
    let nothing = Seq::<char>::empty();
    let region_key = cloud + "."@ + region;
    lemma_one_part(cloud);
    lemma_next_part(cloud, region);
    lemma_next_part(region_key, nothing);
    assert(region_key + "."@ + nothing =~= region_key + "."@);
    lemma_first_parts(region_key + "."@, zone);
    assert(region_key + "."@ + zone =~= cloud + "."@ + region + "."@ + zone);
    if dotless(zone) {
        lemma_next_part(region_key, zone);
    }
}

/// A star in place of a zone stands for the whole region.
pub proof fn a_star_stands_for_the_region(row: RowView)
    requires
        dotless(row.cloud),
        dotless(row.region),
    ensures
        placement_key(row.region_key() + "."@ + "*"@) == row.region_key(),
{
    reveal_strlit("*");
    lemma_parts(row.cloud, row.region, "*"@);
}

impl ClusterView {
    /// Whether the server of `row` is one of those of `placement` that are
    /// considered.
    pub open spec fn found(
        self,
        load_balance: Seq<char>,
        placement: Seq<char>,
        row: RowView,
    ) -> bool {
        self.zone(load_balance, placement_key(placement)).contains(row.server())
    }
}

/// After a list of servers, every server in it, of a kind that is considered, is
/// found by its placement, and by a star for all the zones of its region.
pub proof fn a_server_is_found_by_its_placement(
    c: ClusterView,
    rows: Seq<RowView>,
    control_host: Seq<char>,
    now: Nanos,
    delay: Nanos,
    i: int,
    load_balance: Seq<char>,
)
    requires
        0 <= i < rows.len(),
        dotless(rows[i].cloud),
        dotless(rows[i].region),
        rows[i].is_primary() ==> !wants_rr(load_balance),
        !rows[i].is_primary() ==> wants_rr(load_balance) || !wants_primary(load_balance),
    ensures
        ({
            let after = c.after_rows(rows, control_host, now, delay);
            &&& after.found(load_balance, rows[i].zone_key(), rows[i])
            &&& after.found(load_balance, rows[i].region_key() + "."@ + "*"@, rows[i])
        }),
{
    let after = c.after_rows(rows, control_host, now, delay);
    let row = rows[i];
    refresh_places_every_server(c, rows, control_host, now, delay, i);
    a_star_stands_for_the_region(row);
    lemma_parts(row.cloud, row.region, row.zone);
    assert(placement_key(row.zone_key()) == row.zone_key() || placement_key(row.zone_key())
        == row.region_key());
    lemma_add_contains(
        placed(after.placement_rr, row.zone_key()),
        placed(after.placement_primary, row.zone_key()),
        row.server(),
    );
    lemma_add_contains(
        placed(after.placement_rr, row.region_key()),
        placed(after.placement_primary, row.region_key()),
        row.server(),
    );
}

} // verus!

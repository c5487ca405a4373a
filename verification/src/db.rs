//! What the database keeps, and what is read off its rows.
use vstd::prelude::*;

use crate::logbuffer;
use crate::paths;
use crate::text;

verus! {

/// How many console lines are kept of each server.
pub const MAX_LOG_ROWS: usize = 2000;

/// How many events are kept of each server.
pub const MAX_ACTIVITY_ROWS: usize = 5000;

/// Where the database stands.
pub open spec fn database_of(config_dir: Seq<char>) -> Seq<char> {
    paths::joined_path(config_dir, "panel.db"@)
}

/// Where the database stands.
pub fn db_path(config_dir: &str) -> (r: String)
    ensures
        r@ == database_of(config_dir@),
        r@ == paths::joined_path(config_dir@, "panel.db"@),
{
    paths::join_path(config_dir, "panel.db")
}

/// An event as it is stored.
#[derive(Debug)]
pub struct PlayerActivityRow {
    /// When it happened, in milliseconds since 1970.
    pub ts: i64,
    /// What happened.
    pub event: String,
    /// To whom.
    pub player: String,
    /// More about it.
    pub detail: Option<String>,
}

/// How often a player died.
#[derive(Debug)]
pub struct DeathCount {
    pub player: String,
    pub count: usize,
}

/// How often the name occurs.
pub open spec fn times(names: Seq<Seq<char>>, name: Seq<char>) -> nat
    decreases names.len(),
{
    if names.len() == 0 {
        0
    } else {
        times(names.drop_last(), name) + (if names.last() == name {
            1nat
        } else {
            0
        })
    }
}

/// The names that are counted.
pub open spec fn counted(counts: Seq<DeathCount>) -> Seq<Seq<char>> {
    counts.map_values(|c: DeathCount| c.player@)
}

/// The names in the order in which they first occur, each once.
pub open spec fn first_names(names: Seq<Seq<char>>) -> Seq<Seq<char>>
    decreases names.len(),
{
    if names.len() == 0 {
        Seq::empty()
    } else {
        let before = first_names(names.drop_last());
        if before.contains(names.last()) {
            before
        } else {
            before.push(names.last())
        }
    }
}

/// Whether the counts are those of the names: each name once, with the number of its
/// occurrences.
pub open spec fn are_counts(counts: Seq<DeathCount>, names: Seq<Seq<char>>) -> bool {
    &&& forall|i: int, j: int|
        0 <= i < j < counts.len() ==> #[trigger] counted(counts)[i] != #[trigger] counted(counts)[j]
    &&& forall|i: int|
        0 <= i < counts.len() ==> (#[trigger] counts[i]).count > 0 && counts[i].count == times(
            names,
            counts[i].player@,
        )
    &&& forall|name: Seq<char>| #[trigger] names.contains(name) ==> counted(counts).contains(name)
}

proof fn lemma_times(names: Seq<Seq<char>>, name: Seq<char>)
    ensures
        times(names, name) <= names.len(),
        times(names, name) > 0 <==> names.contains(name),
    decreases names.len(),
{
    if names.len() > 0 {
        let init = names.drop_last();
        lemma_times(init, name);
        assert(names[names.len() - 1] == names.last());
        if init.contains(name) {
            let k = choose|k: int| 0 <= k < init.len() && init[k] == name;
            assert(names[k] == name);
        }
        if names.contains(name) {
            let k = choose|k: int| 0 <= k < names.len() && names[k] == name;
            if k < init.len() {
                assert(init[k] == name);
            }
        }
    }
}

fn find_count(counts: &Vec<DeathCount>, player: &str) -> (r: Option<usize>)
    ensures
        match r {
            Some(i) => i < counts@.len() && counts@[i as int].player@ == player@,
            None => !counted(counts@).contains(player@),
        },
{
    let mut i: usize = 0;
    while i < counts.len()
        invariant
            i <= counts.len(),
            forall|k: int| 0 <= k < i ==> (#[trigger] counted(counts@)[k]) != player@,
        decreases counts.len() - i,
    {
        if text::same(counts[i].player.as_str(), player) {
            return Some(i);
        }
        i += 1;
    }
    None
}

/// How often each player died, given the player of each death. The players come in the order of
/// their first deaths.
pub fn death_counts(players: &Vec<String>) -> (r: Vec<DeathCount>)
    ensures
        are_counts(r@, text::views(players@)),
        counted(r@) == first_names(text::views(players@)),
{
    let ghost names = text::views(players@);
    let mut counts: Vec<DeathCount> = Vec::new();
    let mut i: usize = 0;
    proof {
        assert(names.take(0) =~= Seq::<Seq<char>>::empty());
        assert(counted(counts@) =~= Seq::<Seq<char>>::empty());
    }
    while i < players.len()
        invariant
            i <= players.len(),
            names == text::views(players@),
            are_counts(counts@, names.take(i as int)),
            counted(counts@) == first_names(names.take(i as int)),
        decreases players.len() - i,
    {
        let ghost before = counts@;
        let ghost seen = names.take(i as int);
        let ghost now = names.take(i + 1);
        let ghost name = players@[i as int]@;
        proof {
            assert(now.drop_last() =~= seen);
            assert(now.last() == name);
            lemma_times(now, name);
            lemma_times(seen, name);
        }
        match find_count(&counts, players[i].as_str()) {
            Some(k) => {
                let player = counts[k].player.clone();
                let count: usize = counts[k].count;
                proof {
                    assert(times(now, name) == count + 1);
                }
                counts.set(k, DeathCount { player, count: count + 1 });
                proof {
                    assert(counted(before)[k as int] == name);
                    assert(counted(counts@) =~= counted(before));
                    assert forall|j: int| 0 <= j < counts@.len() implies (
                    #[trigger] counts@[j]).count > 0 && counts@[j].count == times(
                        now,
                        counts@[j].player@,
                    ) by {
                        if j != k {
                            assert(counted(before)[j] != counted(before)[k as int]);
                            assert(counts@[j] == before[j]);
                        }
                    }
                }
            },
            None => {
                proof {
                    if seen.contains(name) {
                        assert(counted(before).contains(name));
                    }
                }
                counts.push(DeathCount { player: players[i].clone(), count: 1 });
                proof {
                    assert(counted(counts@) =~= counted(before).push(name));
                    assert forall|a: int, b: int| 0 <= a < b < counts@.len() implies #[trigger] counted(
                        counts@,
                    )[a] != #[trigger] counted(counts@)[b] by {
                        if b == before.len() {
                            assert(counted(before)[a] != name);
                        } else {
                            assert(counted(before)[a] != counted(before)[b]);
                        }
                    }
                    assert forall|j: int| 0 <= j < counts@.len() implies (
                    #[trigger] counts@[j]).count > 0 && counts@[j].count == times(
                        now,
                        counts@[j].player@,
                    ) by {
                        if j < before.len() {
                            assert(counts@[j] == before[j]);
                            assert(counted(before)[j] != name);
                        }
                    }
                }
            },
        }
        proof {
            assert forall|n: Seq<char>| #[trigger] now.contains(n) implies counted(
                counts@,
            ).contains(n) by {
                lemma_times(now, n);
                lemma_times(seen, n);
                if n == name {
                    if counted(before).contains(name) {
                        let k = choose|k: int|
                            0 <= k < before.len() && counted(before)[k] == name;
                        assert(counted(counts@)[k] == name);
                    } else {
                        assert(counted(counts@)[counts@.len() - 1] == name);
                    }
                } else {
                    assert(seen.contains(n));
                    let k = choose|k: int| 0 <= k < before.len() && counted(before)[k] == n;
                    assert(counted(counts@)[k] == n);
                }
            }
        }
        i += 1;
    }
    proof {
        assert(names.take(i as int) =~= names);
    }
    counts
}

/// The rows of that event, in their order.
pub open spec fn rows_of(rows: Seq<PlayerActivityRow>, event: Seq<char>) -> Seq<PlayerActivityRow>
    decreases rows.len(),
{
    if rows.len() == 0 {
        Seq::empty()
    } else if rows.last().event@ == event {
        rows_of(rows.drop_last(), event).push(rows.last())
    } else {
        rows_of(rows.drop_last(), event)
    }
}

/// The rows of that event, in their order.
pub fn events_of(rows: Vec<PlayerActivityRow>, event: &str) -> (r: Vec<PlayerActivityRow>)
    ensures
        r@ == rows_of(rows@, event@),
{
    let ghost all = rows@;
    let mut rest = rows;
    let mut backwards: Vec<PlayerActivityRow> = Vec::new();
    proof {
        assert(rows_of(rest@, event@) + backwards@.reverse() =~= rows_of(all, event@));
    }
    while rest.len() > 0
        invariant
            rows_of(rest@, event@) + backwards@.reverse() == rows_of(all, event@),
        decreases rest.len(),
    {
        let ghost left = rest@;
        let ghost found = backwards@;
        match rest.pop() {
            Some(row) => {
                proof {
                    assert(rest@ =~= left.drop_last());
                }
                if text::same(row.event.as_str(), event) {
                    backwards.push(row);
                    proof {
                        assert(rows_of(rest@, event@) + backwards@.reverse() =~= rows_of(
                            left,
                            event@,
                        ) + found.reverse());
                    }
                }
            },
            None => {},
        }
    }
    let mut out: Vec<PlayerActivityRow> = Vec::new();
    let ghost kept = backwards@.reverse();
    proof {
        assert(rows_of(rest@, event@) + kept =~= kept);
        assert(out@ + backwards@.reverse() =~= kept);
    }
    while backwards.len() > 0
        invariant
            out@ + backwards@.reverse() == kept,
        decreases backwards.len(),
    {
        let ghost left = backwards@;
        let ghost had = out@;
        match backwards.pop() {
            Some(row) => {
                out.push(row);
                proof {
                    assert(left.reverse()[0] == left.last());
                    assert(out@ + backwards@.reverse() =~= had + left.reverse());
                }
            },
            None => {},
        }
    }
    proof {
        assert(out@ + backwards@.reverse() =~= out@);
    }
    out
}

// ── Laws ──────────────────────────────────────────────────────────────────

/// A name occurs in two lists put together as often as in each, and in a list of one name once or
/// not at all.
pub proof fn law_times_add_up(
    a: Seq<Seq<char>>,
    b: Seq<Seq<char>>,
    name: Seq<char>,
    other: Seq<char>,
)
    ensures
        times(a + b, name) == times(a, name) + times(b, name),
        times(seq![name], name) == 1,
        other != name ==> times(seq![other], name) == 0,
    decreases b.len(),
{
    let none = Seq::<Seq<char>>::empty();
    assert(seq![name].drop_last() =~= none);
    assert(seq![other].drop_last() =~= none);
    assert(times(none, name) == 0);
    if b.len() == 0 {
        assert(a + b =~= a);
    } else {
        law_times_add_up(a, b.drop_last(), name, other);
        assert((a + b).drop_last() =~= a + b.drop_last());
        assert((a + b).last() == b.last());
    }
}

/// The names that are counted are those that occur, each once. One more name comes last where it
/// is new, and changes nothing where it is not.
pub proof fn law_names_come_once(names: Seq<Seq<char>>, name: Seq<char>)
    ensures
        first_names(names).contains(name) <==> names.contains(name),
        forall|i: int, j: int|
            0 <= i < j < first_names(names).len() ==> #[trigger] first_names(names)[i]
                != #[trigger] first_names(names)[j],
        !names.contains(name) ==> first_names(names.push(name)) == first_names(names).push(name),
        names.contains(name) ==> first_names(names.push(name)) == first_names(names),
    decreases names.len(),
{
    assert(names.push(name).drop_last() =~= names);
    assert(names.push(name).last() == name);
    if names.len() > 0 {
        let init = names.drop_last();
        let last = names.last();
        let before = first_names(init);
        law_names_come_once(init, name);
        law_names_come_once(init, last);
        assert(names[names.len() - 1] == last);
        if names.contains(name) {
            let k = choose|k: int| 0 <= k < names.len() && names[k] == name;
            if k < init.len() {
                assert(init[k] == name);
            }
        }
        if init.contains(name) {
            let k = choose|k: int| 0 <= k < init.len() && init[k] == name;
            assert(names[k] == name);
        }
        if !before.contains(last) {
            let after = before.push(last);
            assert(after[after.len() - 1] == last);
            if before.contains(name) {
                let k = choose|k: int| 0 <= k < before.len() && before[k] == name;
                assert(after[k] == name);
            }
            if after.contains(name) {
                let k = choose|k: int| 0 <= k < after.len() && after[k] == name;
                if k < before.len() {
                    assert(before[k] == name);
                }
            }
            assert forall|i: int, j: int| 0 <= i < j < after.len() implies #[trigger] after[i]
                != #[trigger] after[j] by {
                assert(after[i] == before[i]);
                if j == before.len() {
                    assert(before.contains(before[i]));
                } else {
                    assert(after[j] == before[j]);
                }
            }
        }
    }
}

/// Of the events of two lists put together those of one sort are those of each list, in their
/// order; one event is of that sort where it has its name.
pub proof fn law_events_of_a_sort(
    a: Seq<PlayerActivityRow>,
    b: Seq<PlayerActivityRow>,
    row: PlayerActivityRow,
    event: Seq<char>,
)
    ensures
        rows_of(a + b, event) == rows_of(a, event) + rows_of(b, event),
        row.event@ == event ==> rows_of(seq![row], event) == seq![row],
        row.event@ != event ==> rows_of(seq![row], event) == Seq::<PlayerActivityRow>::empty(),
    decreases b.len(),
{
    let none = Seq::<PlayerActivityRow>::empty();
    assert(seq![row].drop_last() =~= none);
    assert(rows_of(none, event) =~= none);
    assert(seq![row].last() == row);
    assert(none.push(row) =~= seq![row]);
    if b.len() == 0 {
        assert(a + b =~= a);
        assert(rows_of(a, event) + rows_of(b, event) =~= rows_of(a, event));
    } else {
        law_events_of_a_sort(a, b.drop_last(), row, event);
        assert((a + b).drop_last() =~= a + b.drop_last());
        assert((a + b).last() == b.last());
        assert(rows_of(a + b, event) =~= rows_of(a, event) + rows_of(b, event));
    }
}

/// The database stands in the configuration directory.
pub proof fn law_database_of(config_dir: Seq<char>)
    requires
        config_dir.len() > 0,
        config_dir.last() != '/',
    ensures
        database_of(config_dir) == config_dir + "/panel.db"@,
{
    reveal_strlit("panel.db");
    reveal_strlit("/panel.db");
    assert(config_dir + seq!['/'] + "panel.db"@ =~= config_dir + "/panel.db"@);
}

/// A count is how often the player is named.
pub proof fn law_counts_tell(counts: Seq<DeathCount>, names: Seq<Seq<char>>, i: int)
    requires
        are_counts(counts, names),
        0 <= i < counts.len(),
    ensures
        counts[i].count == times(names, counts[i].player@),
        counts[i].count > 0,
        names.contains(counts[i].player@),
        forall|j: int|
            0 <= j < counts.len() && j != i ==> (#[trigger] counts[j]).player@ != counts[i].player@,
{
    lemma_times(names, counts[i].player@);
    assert forall|j: int| 0 <= j < counts.len() && j != i implies (#[trigger] counts[j]).player@
        != counts[i].player@ by {
        if i < j {
            assert(counted(counts)[i] != counted(counts)[j]);
        } else {
            assert(counted(counts)[j] != counted(counts)[i]);
        }
    }
}

/// Of each server as many lines are stored as its console shows, and five thousand events.
pub proof fn law_rows_kept()
    ensures
        MAX_LOG_ROWS == logbuffer::MAX_LINES,
        MAX_ACTIVITY_ROWS == 5000,
{
}

} // verus!

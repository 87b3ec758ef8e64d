//! Filtering game summaries to 9x9 boards and gathering them into one group
//! per UTC calendar day, ordered by day. Gathering scans the whole
//! collection, so games of one day need not arrive adjacently.

use vstd::prelude::*;
use crate::dates::{
    CalendarDate, calendar_date_of, date_chars, date_key, date_key_u32, date_parts, date_string,
    lemma_date_key_injective, lemma_date_order_is_string_order, lex_lt, valid_date, utc_day_of,
};
use crate::records::{
    Game, lemma_filter_one_more, lemma_nine_filter_take_step, nine_filter, valid_game, valid_games,
};

verus! {

/// The games of one UTC calendar day, after filtering to 9x9 boards.
#[derive(Debug, PartialEq)]
pub struct DateGroup {
    pub date: CalendarDate,
    pub members: Vec<Game>,
}

/// `g` ended on calendar day `d`, by the UTC date its timestamp falls on.
pub open spec fn game_on_date(g: Game, d: CalendarDate) -> bool {
    utc_day_of(g.ended as int) == date_parts(d)
}

/// The predicate "ended on day `d`", as a function value.
pub open spec fn on_date_pred(d: CalendarDate) -> spec_fn(Game) -> bool {
    |g: Game| game_on_date(g, d)
}

/// The 9x9 games of `input` that ended on day `d`, in input order.
pub open spec fn members_spec(input: Seq<Game>, d: CalendarDate) -> Seq<Game> {
    nine_filter(input).filter(on_date_pred(d))
}

/// What filtering and grouping promises: every group is a distinct UTC day,
/// in strictly ascending day order; each group holds exactly the 9x9 games of
/// its day, in input order; no group is empty; and every 9x9 input game has
/// its day among the groups. Together these clauses make the groups a
/// partition of the 9x9 subset of the input.
pub open spec fn grouped_by_date(input: Seq<Game>, groups: Seq<DateGroup>) -> bool {
    &&& forall|i: int| 0 <= i < groups.len() ==> valid_date((#[trigger] groups[i]).date)
    &&& forall|i: int|
        0 <= i < groups.len() ==> (#[trigger] groups[i]).members@ == members_spec(
            input,
            groups[i].date,
        )
    &&& forall|i: int| 0 <= i < groups.len() ==> (#[trigger] groups[i]).members@.len() > 0
    &&& forall|i: int, j: int|
        0 <= i < j < groups.len() ==> date_key(#[trigger] groups[i].date) < date_key(
            #[trigger] groups[j].date,
        )
    &&& forall|k: int|
        0 <= k < input.len() && (#[trigger] input[k]).width == 9 ==> exists|i: int|
            0 <= i < groups.len() && game_on_date(input[k], (#[trigger] groups[i]).date)
}

/// Every element of a filtered sequence occurs in the sequence it was
/// filtered from.
pub proof fn lemma_filter_is_subset<A>(s: Seq<A>, pred: spec_fn(A) -> bool)
    ensures
        forall|i: int|
            0 <= i < s.filter(pred).len() ==> s.contains(#[trigger] s.filter(pred)[i]),
    decreases s.len(),
{
    reveal(Seq::filter);
    if s.len() > 0 {
        lemma_filter_is_subset(s.drop_last(), pred);
        assert forall|i: int|
            0 <= i < s.filter(pred).len() implies s.contains(#[trigger] s.filter(pred)[i]) by {
            let f = s.filter(pred);
            let fd = s.drop_last().filter(pred);
            if i < fd.len() {
                assert(s.drop_last().contains(fd[i]));
                let w = choose|w: int| 0 <= w < s.drop_last().len() && s.drop_last()[w] == fd[i];
                assert(s[w] == fd[i]);
            } else {
                assert(f[i] == s.last());
            }
        }
    }
}

/// Extending the scanned prefix by one game extends exactly the members of
/// that game's day, and only when the game's board is nine lines wide.
proof fn lemma_members_take_step(input: Seq<Game>, k: int, d: CalendarDate)
    requires
        0 <= k < input.len(),
    ensures
        input[k].width == 9 && game_on_date(input[k], d) ==> members_spec(input.take(k + 1), d)
            == members_spec(input.take(k), d).push(input[k]),
        input[k].width == 9 && !game_on_date(input[k], d) ==> members_spec(input.take(k + 1), d)
            == members_spec(input.take(k), d),
        input[k].width != 9 ==> members_spec(input.take(k + 1), d) == members_spec(
            input.take(k),
            d,
        ),
{
    lemma_nine_filter_take_step(input, k);
    if input[k].width == 9 {
        let base = nine_filter(input.take(k));
        assert(base.push(input[k]) =~= base + seq![input[k]]);
        lemma_filter_one_more(base, input[k], on_date_pred(d));
    }
}

/// A day none of the groups carries is a day none of the scanned 9x9 games
/// ended on, so its member sequence is empty.
proof fn lemma_absent_date_has_no_members(input: Seq<Game>, groups: Seq<DateGroup>, d: CalendarDate)
    requires
        grouped_by_date(input, groups),
        valid_date(d),
        forall|j: int| 0 <= j < groups.len() ==> date_key((#[trigger] groups[j]).date) != date_key(d),
    ensures
        members_spec(input, d) == Seq::<Game>::empty(),
{
    let ms = members_spec(input, d);
    if ms.len() > 0 {
        let e = ms[0];
        let base = nine_filter(input);
        broadcast use vstd::seq_lib::group_filter_ensures;

        assert(game_on_date(e, d)) by {
            assert(on_date_pred(d)(ms[0]));
        }
        lemma_filter_is_subset(base, on_date_pred(d));
        assert(base.contains(e));
        let w = choose|w: int| 0 <= w < base.len() && base[w] == e;
        assert(e.width == 9);
        lemma_filter_is_subset(input, |g: Game| g.width == 9);
        assert(input.contains(e));
        let kk = choose|kk: int| 0 <= kk < input.len() && input[kk] == e;
        let jj = choose|jj: int|
            0 <= jj < groups.len() && game_on_date(input[kk], groups[jj].date);
        assert(date_parts(groups[jj].date) == date_parts(d));
        assert(groups[jj].date == d);
        assert(false);
    }
    assert(ms =~= Seq::<Game>::empty());
}

/// One grouping step where the scanned game is 9x9 and a group for its day
/// already stands at index `i`: that group gains the game at the end of its
/// members and everything else is unchanged.
proof fn lemma_group_step_existing(
    input: Seq<Game>,
    k: int,
    old_gs: Seq<DateGroup>,
    new_gs: Seq<DateGroup>,
    i: int,
    d: CalendarDate,
)
    requires
        0 <= k < input.len(),
        grouped_by_date(input.take(k), old_gs),
        input[k].width == 9,
        valid_date(d),
        date_parts(d) == utc_day_of(input[k].ended as int),
        0 <= i < old_gs.len(),
        old_gs[i].date == d,
        new_gs.len() == old_gs.len(),
        forall|j: int| 0 <= j < new_gs.len() && j != i ==> #[trigger] new_gs[j] == old_gs[j],
        new_gs[i].date == d,
        new_gs[i].members@ == old_gs[i].members@.push(input[k]),
    ensures
        grouped_by_date(input.take(k + 1), new_gs),
{
    let pre = input.take(k);
    let post = input.take(k + 1);
    assert(post.len() == k + 1);
    assert(forall|kk: int| 0 <= kk < k + 1 ==> post[kk] == input[kk]);
    // member sequences: only day `d` grows, and exactly by the new game
    assert forall|j: int| 0 <= j < new_gs.len() implies (#[trigger] new_gs[j]).members@
        == members_spec(post, new_gs[j].date) by {
        lemma_members_take_step(input, k, new_gs[j].date);
        if j != i {
            if game_on_date(input[k], new_gs[j].date) {
                assert(date_parts(new_gs[j].date) == date_parts(d));
                assert(new_gs[j].date == d);
                lemma_date_key_injective(new_gs[j].date, d);
                if j < i {
                    assert(date_key(old_gs[j].date) < date_key(old_gs[i].date));
                } else {
                    assert(date_key(old_gs[i].date) < date_key(old_gs[j].date));
                }
                assert(false);
            }
        } else {
            assert(game_on_date(input[k], d));
        }
    }
    // the new game's day is present, and older games keep their witnesses
    assert forall|kk: int|
        0 <= kk < post.len() && (#[trigger] post[kk]).width == 9 implies exists|jj: int|
        0 <= jj < new_gs.len() && game_on_date(post[kk], (#[trigger] new_gs[jj]).date) by {
        if kk < k {
            let jj = choose|jj: int|
                0 <= jj < old_gs.len() && game_on_date(input[kk], old_gs[jj].date);
            assert(new_gs[jj].date == old_gs[jj].date);
            assert(game_on_date(post[kk], new_gs[jj].date));
        } else {
            assert(game_on_date(post[kk], new_gs[i].date));
        }
    }
    // day order: the dates are the old dates
    assert forall|j1: int, j2: int| 0 <= j1 < j2 < new_gs.len() implies date_key(
        #[trigger] new_gs[j1].date,
    ) < date_key(#[trigger] new_gs[j2].date) by {
        assert(new_gs[j1].date == old_gs[j1].date);
        assert(new_gs[j2].date == old_gs[j2].date);
    }
}

/// One grouping step where the scanned game is 9x9 and no group for its day
/// exists: a fresh one-member group enters at index `i`, between the smaller
/// and the larger days.
proof fn lemma_group_step_new(
    input: Seq<Game>,
    k: int,
    old_gs: Seq<DateGroup>,
    new_gs: Seq<DateGroup>,
    i: int,
    d: CalendarDate,
)
    requires
        0 <= k < input.len(),
        grouped_by_date(input.take(k), old_gs),
        input[k].width == 9,
        valid_date(d),
        date_parts(d) == utc_day_of(input[k].ended as int),
        0 <= i <= old_gs.len(),
        forall|j: int| 0 <= j < i ==> date_key((#[trigger] old_gs[j]).date) < date_key(d),
        i < old_gs.len() ==> date_key(old_gs[i].date) > date_key(d),
        new_gs.len() == old_gs.len() + 1,
        forall|j: int| 0 <= j < i ==> #[trigger] new_gs[j] == old_gs[j],
        forall|j: int| i <= j < old_gs.len() ==> #[trigger] new_gs[j + 1] == old_gs[j],
        new_gs[i].date == d,
        new_gs[i].members@ == seq![input[k]],
    ensures
        grouped_by_date(input.take(k + 1), new_gs),
{
    let post = input.take(k + 1);
    assert(forall|kk: int| 0 <= kk < k + 1 ==> post[kk] == input[kk]);
    assert forall|j: int| i < j < new_gs.len() implies #[trigger] new_gs[j] == old_gs[j - 1] by {
        assert(new_gs[(j - 1) + 1] == old_gs[j - 1]);
    }
    // every old day differs from the new one
    assert forall|j: int| 0 <= j < old_gs.len() implies date_key((#[trigger] old_gs[j]).date)
        != date_key(d) by {
        if j >= i {
            assert(i < old_gs.len());
            if j > i {
                assert(date_key(old_gs[i].date) < date_key(old_gs[j].date));
            }
        }
    }
    lemma_absent_date_has_no_members(input.take(k), old_gs, d);
    // member sequences
    assert forall|j: int| 0 <= j < new_gs.len() implies (#[trigger] new_gs[j]).members@
        == members_spec(post, new_gs[j].date) by {
        lemma_members_take_step(input, k, new_gs[j].date);
        if j == i {
            assert(game_on_date(input[k], d));
            assert(members_spec(input.take(k), d) == Seq::<Game>::empty());
            assert(Seq::<Game>::empty().push(input[k]) =~= seq![input[k]]);
        } else {
            let jo = if j < i {
                j
            } else {
                j - 1
            };
            assert(new_gs[j] == old_gs[jo]);
            if game_on_date(input[k], new_gs[j].date) {
                assert(date_parts(new_gs[j].date) == date_parts(d));
                assert(new_gs[j].date == d);
                assert(date_key(old_gs[jo].date) != date_key(d));
                assert(false);
            }
        }
    }
    // coverage
    assert forall|kk: int|
        0 <= kk < post.len() && (#[trigger] post[kk]).width == 9 implies exists|jj: int|
        0 <= jj < new_gs.len() && game_on_date(post[kk], (#[trigger] new_gs[jj]).date) by {
        if kk < k {
            let jj = choose|jj: int|
                0 <= jj < old_gs.len() && game_on_date(input[kk], old_gs[jj].date);
            let jn = if jj < i {
                jj
            } else {
                jj + 1
            };
            assert(new_gs[jn].date == old_gs[jj].date);
            assert(game_on_date(post[kk], new_gs[jn].date));
        } else {
            assert(game_on_date(post[kk], new_gs[i].date));
        }
    }
    // day order across the insertion point
    assert forall|j1: int, j2: int| 0 <= j1 < j2 < new_gs.len() implies date_key(
        #[trigger] new_gs[j1].date,
    ) < date_key(#[trigger] new_gs[j2].date) by {
        if j1 < i && j2 < i {
        } else if j1 < i && j2 == i {
        } else if j1 == i && j2 > i {
            assert(new_gs[j2] == old_gs[j2 - 1]);
            if j2 - 1 > i {
                assert(date_key(old_gs[i].date) < date_key(old_gs[j2 - 1].date));
            }
        } else if j1 < i && j2 > i {
            assert(new_gs[j2] == old_gs[j2 - 1]);
            if j2 - 1 > i {
                assert(date_key(old_gs[i].date) < date_key(old_gs[j2 - 1].date));
            }
            assert(date_key(old_gs[j1].date) < date_key(d));
        } else {
            assert(new_gs[j1] == old_gs[j1 - 1]);
            assert(new_gs[j2] == old_gs[j2 - 1]);
        }
    }
    // validity of the dates
    assert forall|j: int| 0 <= j < new_gs.len() implies valid_date(
        (#[trigger] new_gs[j]).date,
    ) by {
        if j != i {
            let jo = if j < i {
                j
            } else {
                j - 1
            };
            assert(new_gs[j] == old_gs[jo]);
        }
    }
}

/// One grouping step where the scanned game is not 9x9: nothing changes.
proof fn lemma_group_step_skip(input: Seq<Game>, k: int, groups: Seq<DateGroup>)
    requires
        0 <= k < input.len(),
        grouped_by_date(input.take(k), groups),
        input[k].width != 9,
    ensures
        grouped_by_date(input.take(k + 1), groups),
{
    let post = input.take(k + 1);
    assert(forall|kk: int| 0 <= kk < k + 1 ==> post[kk] == input[kk]);
    assert forall|j: int| 0 <= j < groups.len() implies (#[trigger] groups[j]).members@
        == members_spec(post, groups[j].date) by {
        lemma_members_take_step(input, k, groups[j].date);
    }
    assert forall|kk: int|
        0 <= kk < post.len() && (#[trigger] post[kk]).width == 9 implies exists|jj: int|
        0 <= jj < groups.len() && game_on_date(post[kk], (#[trigger] groups[jj]).date) by {
        assert(kk < k);
        let jj = choose|jj: int|
            0 <= jj < groups.len() && game_on_date(input[kk], groups[jj].date);
        assert(game_on_date(post[kk], groups[jj].date));
    }
}

/// Filter `games` to 9x9 boards and gather the survivors into one group per
/// UTC calendar day, groups in strictly ascending day order, members of each
/// group in input order.
pub fn filter_and_group(games: &Vec<Game>) -> (groups: Vec<DateGroup>)
    requires
        valid_games(games@),
    ensures
        grouped_by_date(games@, groups@),
{
    let ghost input = games@;
    let mut groups: Vec<DateGroup> = Vec::new();
    proof {
        assert(input.take(0) =~= Seq::<Game>::empty());
    }
    let mut k: usize = 0;
    while k < games.len()
        invariant
            k <= input.len(),
            games@ == input,
            valid_games(input),
            grouped_by_date(input.take(k as int), groups@),
        decreases input.len() - k,
    {
        assert(valid_game(input[k as int]));
        if games[k].is_nine_by_nine() {
            let d = calendar_date_of(games[k].ended);
            let key: u32 = date_key_u32(&d);
            let ghost old_gs = groups@;
            let mut i: usize = 0;
            loop
                invariant_except_break
                    groups@ == old_gs,
                    grouped_by_date(input.take(k as int), groups@),
                    i <= groups@.len(),
                    valid_date(d),
                    key == date_key(d),
                    forall|j: int| 0 <= j < i ==> date_key((#[trigger] groups@[j]).date) < key,
                ensures
                    groups@ == old_gs,
                    grouped_by_date(input.take(k as int), groups@),
                    i <= groups@.len(),
                    forall|j: int| 0 <= j < i ==> date_key((#[trigger] groups@[j]).date) < key,
                    i < groups@.len() ==> date_key(groups@[i as int].date) >= key,
                decreases groups@.len() - i,
            {
                if i == groups.len() {
                    break ;
                }
                if date_key_u32(&groups[i].date) >= key {
                    break ;
                }
                i = i + 1;
            }
            let at_existing_day = i < groups.len() && date_key_u32(&groups[i].date) == key;
            if at_existing_day {
                proof {
                    lemma_date_key_injective(groups@[i as int].date, d);
                }
                let mut grp = groups.remove(i);
                grp.members.push(games[k].clone());
                groups.insert(i, grp);
                proof {
                    let gs = groups@;
                    assert(gs =~= old_gs.update(i as int, gs[i as int]));
                    lemma_group_step_existing(input, k as int, old_gs, gs, i as int, d);
                }
            } else {
                let mut members: Vec<Game> = Vec::new();
                members.push(games[k].clone());
                groups.insert(i, DateGroup { date: d, members });
                proof {
                    let gs = groups@;
                    old_gs.insert_ensures(i as int, gs[i as int]);
                    assert(gs =~= old_gs.insert(i as int, gs[i as int]));
                    assert(gs[i as int].members@ =~= seq![input[k as int]]);
                    lemma_group_step_new(input, k as int, old_gs, gs, i as int, d);
                }
            }
        } else {
            proof {
                lemma_group_step_skip(input, k as int, groups@);
            }
        }
        k = k + 1;
    }
    proof {
        assert(input.take(input.len() as int) =~= input);
    }
    groups
}

/// The groups' days are strictly ascending (so each day occurs once).
pub open spec fn dates_sorted(groups: Seq<DateGroup>) -> bool {
    forall|i: int, j: int|
        0 <= i < j < groups.len() ==> date_key(#[trigger] groups[i].date) < date_key(
            #[trigger] groups[j].date,
        )
}

/// All the groups' days are dates the pipeline can have computed.
pub open spec fn dates_valid(groups: Seq<DateGroup>) -> bool {
    forall|i: int| 0 <= i < groups.len() ==> valid_date((#[trigger] groups[i]).date)
}

/// Facts about one member of a day's member sequence: it is a 9x9 game, it
/// occurs in the input, and it ended on that day.
pub proof fn lemma_member_facts(input: Seq<Game>, d: CalendarDate, m: int)
    requires
        0 <= m < members_spec(input, d).len(),
    ensures
        members_spec(input, d)[m].width == 9,
        input.contains(members_spec(input, d)[m]),
        game_on_date(members_spec(input, d)[m], d),
{
    broadcast use vstd::seq_lib::group_filter_ensures;

    let base = nine_filter(input);
    let ms = members_spec(input, d);
    assert(on_date_pred(d)(ms[m]));
    lemma_filter_is_subset(base, on_date_pred(d));
    assert(base.contains(ms[m]));
    let w = choose|w: int| 0 <= w < base.len() && base[w] == ms[m];
    assert(base[w].width == 9);
    lemma_filter_is_subset(input, |g: Game| g.width == 9);
    assert(input.contains(base[w]));
}

/// The groups partition exactly the 9x9 subset of the input: every member of
/// every group is a 9x9 game of the input; every 9x9 input game lies in some
/// group; no game lies in two groups — and so a game of another width lies in
/// none.
pub proof fn lemma_groups_partition(input: Seq<Game>, groups: Seq<DateGroup>)
    requires
        grouped_by_date(input, groups),
    ensures
        forall|i: int, m: int|
            0 <= i < groups.len() && 0 <= m < groups[i].members@.len() ==> (#[trigger] groups[i].members@[m]).width
                == 9 && input.contains(groups[i].members@[m]),
        forall|k: int|
            0 <= k < input.len() && (#[trigger] input[k]).width == 9 ==> exists|i: int|
                0 <= i < groups.len() && (#[trigger] groups[i]).members@.contains(input[k]),
        forall|i: int, j: int, g: Game|
            0 <= i < groups.len() && 0 <= j < groups.len() && i != j && (
            #[trigger] groups[i].members@.contains(g)) ==> !(#[trigger] groups[j].members@.contains(
                g,
            )),
        forall|i: int, g: Game|
            0 <= i < groups.len() && g.width != 9 ==> !(#[trigger] groups[i].members@.contains(g)),
{
    broadcast use vstd::seq_lib::group_filter_ensures;

    assert forall|i: int, g: Game|
        0 <= i < groups.len() && g.width != 9 implies !(#[trigger] groups[i].members@.contains(
        g,
    )) by {
        if groups[i].members@.contains(g) {
            let m = choose|m: int| 0 <= m < groups[i].members@.len() && groups[i].members@[m] == g;
            lemma_member_facts(input, groups[i].date, m);
        }
    }

    assert forall|i: int, m: int|
        0 <= i < groups.len() && 0 <= m < groups[i].members@.len() implies (
    #[trigger] groups[i].members@[m]).width == 9 && input.contains(groups[i].members@[m]) by {
        lemma_member_facts(input, groups[i].date, m);
    }
    assert forall|k: int|
        0 <= k < input.len() && (#[trigger] input[k]).width == 9 implies exists|i: int|
        0 <= i < groups.len() && (#[trigger] groups[i]).members@.contains(input[k]) by {
        let i = choose|i: int|
            0 <= i < groups.len() && game_on_date(input[k], (#[trigger] groups[i]).date);
        let base = nine_filter(input);
        assert(base.contains(input[k]));
        let w = choose|w: int| 0 <= w < base.len() && base[w] == input[k];
        assert(on_date_pred(groups[i].date)(base[w]));
        assert(members_spec(input, groups[i].date).contains(base[w]));
        assert(groups[i].members@.contains(input[k]));
    }
    assert forall|i: int, j: int, g: Game|
        0 <= i < groups.len() && 0 <= j < groups.len() && i != j && (
    #[trigger] groups[i].members@.contains(g)) implies !(
    #[trigger] groups[j].members@.contains(g)) by {
        if groups[j].members@.contains(g) {
            let mi = choose|m: int| 0 <= m < groups[i].members@.len() && groups[i].members@[m] == g;
            let mj = choose|m: int| 0 <= m < groups[j].members@.len() && groups[j].members@[m] == g;
            lemma_member_facts(input, groups[i].date, mi);
            lemma_member_facts(input, groups[j].date, mj);
            assert(date_parts(groups[i].date) == date_parts(groups[j].date));
            assert(groups[i].date == groups[j].date);
            if i < j {
                assert(date_key(groups[i].date) < date_key(groups[j].date));
            } else {
                assert(date_key(groups[j].date) < date_key(groups[i].date));
            }
            assert(false);
        }
    }
}

/// Some group of `groups` is for day `d`.
pub open spec fn has_day(groups: Seq<DateGroup>, d: CalendarDate) -> bool {
    exists|j: int| 0 <= j < groups.len() && (#[trigger] groups[j]).date == d
}

/// Every day of `a` is a day of `b`.
pub open spec fn days_subset(a: Seq<DateGroup>, b: Seq<DateGroup>) -> bool {
    forall|i: int| 0 <= i < a.len() ==> has_day(b, (#[trigger] a[i]).date)
}

/// A day among one group sequence's days, with both sequences grouping the
/// same input, is among the other's too.
proof fn lemma_day_carries_over(
    input: Seq<Game>,
    g1: Seq<DateGroup>,
    g2: Seq<DateGroup>,
    i: int,
)
    requires
        grouped_by_date(input, g1),
        grouped_by_date(input, g2),
        0 <= i < g1.len(),
    ensures
        has_day(g2, g1[i].date),
{
    let d = g1[i].date;
    lemma_member_facts(input, d, 0);
    let e = members_spec(input, d)[0];
    let k = choose|k: int| 0 <= k < input.len() && input[k] == e;
    let j = choose|j: int| 0 <= j < g2.len() && game_on_date(input[k], (#[trigger] g2[j]).date);
    assert(date_parts(g2[j].date) == date_parts(d));
    assert(g2[j].date == d);
}

/// Two strictly day-ordered group sequences with the same days agree on the
/// day at every index.
#[verifier::rlimit(60)]
proof fn lemma_sorted_same_days(g1: Seq<DateGroup>, g2: Seq<DateGroup>)
    requires
        dates_sorted(g1),
        dates_sorted(g2),
        days_subset(g1, g2),
        days_subset(g2, g1),
    ensures
        g1.len() == g2.len(),
        forall|i: int| 0 <= i < g1.len() ==> (#[trigger] g1[i]).date == g2[i].date,
    decreases g1.len(),
{
    if g1.len() == 0 {
        if g2.len() > 0 {
            assert(has_day(g1, g2[0].date));
            assert(false);
        }
    } else {
        if g2.len() == 0 {
            assert(has_day(g2, g1[0].date));
            assert(false);
        }
        // the least days agree
        assert(has_day(g2, g1[0].date));
        assert(has_day(g1, g2[0].date));
        let j0 = choose|j: int| 0 <= j < g2.len() && (#[trigger] g2[j]).date == g1[0].date;
        let i0 = choose|i: int| 0 <= i < g1.len() && (#[trigger] g1[i]).date == g2[0].date;
        if j0 > 0 {
            assert(date_key(g2[0].date) < date_key(g2[j0].date));
        }
        if i0 > 0 {
            assert(date_key(g1[0].date) < date_key(g1[i0].date));
        }
        assert(g1[0].date == g2[0].date);
        // the tails carry the remaining days
        let t1 = g1.drop_first();
        let t2 = g2.drop_first();
        assert(forall|x: int| 0 <= x < t1.len() ==> #[trigger] t1[x] == g1[x + 1]);
        assert(forall|x: int| 0 <= x < t2.len() ==> #[trigger] t2[x] == g2[x + 1]);
        assert forall|i: int| 0 <= i < t1.len() implies has_day(t2, (#[trigger] t1[i]).date) by {
            assert(t1[i] == g1[i + 1]);
            assert(has_day(g2, g1[i + 1].date));
            let j = choose|j: int| 0 <= j < g2.len() && (#[trigger] g2[j]).date == g1[i + 1].date;
            assert(date_key(g1[0].date) < date_key(g1[i + 1].date));
            assert(j != 0);
            assert(t2[j - 1] == g2[(j - 1) + 1]);
            assert(t2[j - 1].date == t1[i].date);
        }
        assert forall|j: int| 0 <= j < t2.len() implies has_day(t1, (#[trigger] t2[j]).date) by {
            assert(t2[j] == g2[j + 1]);
            assert(has_day(g1, g2[j + 1].date));
            let i = choose|i: int| 0 <= i < g1.len() && (#[trigger] g1[i]).date == g2[j + 1].date;
            assert(date_key(g2[0].date) < date_key(g2[j + 1].date));
            assert(i != 0);
            assert(t1[i - 1] == g1[(i - 1) + 1]);
            assert(t1[i - 1].date == t2[j].date);
        }
        lemma_sorted_same_days(t1, t2);
        assert forall|i: int| 0 <= i < g1.len() implies (#[trigger] g1[i]).date == g2[i].date by {
            if i > 0 {
                assert(t1[i - 1] == g1[(i - 1) + 1]);
                assert(t2[i - 1] == g2[(i - 1) + 1]);
                assert(t1[i - 1].date == t2[i - 1].date);
            }
        }
    }
}

/// Grouping is a pure function of its input: any two group sequences that
/// both satisfy the grouping contract for one input agree group for group —
/// the same days in the same order with the same members. Running the
/// grouping twice on one input therefore yields identical output.
pub proof fn lemma_grouping_is_function(input: Seq<Game>, g1: Seq<DateGroup>, g2: Seq<DateGroup>)
    requires
        grouped_by_date(input, g1),
        grouped_by_date(input, g2),
    ensures
        g1.len() == g2.len(),
        forall|i: int|
            0 <= i < g1.len() ==> (#[trigger] g1[i]).date == g2[i].date && g1[i].members@
                == g2[i].members@,
{
    assert forall|i: int| 0 <= i < g1.len() implies has_day(g2, (#[trigger] g1[i]).date) by {
        lemma_day_carries_over(input, g1, g2, i);
    }
    assert forall|j: int| 0 <= j < g2.len() implies has_day(g1, (#[trigger] g2[j]).date) by {
        lemma_day_carries_over(input, g2, g1, j);
    }
    lemma_sorted_same_days(g1, g2);
}

pub trait GetSortedDatesFromGroupedGames {
    /// Whether the groups are fit for presentation.
    spec fn presentable(&self) -> bool;

    fn get_sorted_dates_from_grouped_games(&self) -> (dates: Vec<String>)
        requires
            self.presentable(),
    ;
}

impl GetSortedDatesFromGroupedGames for Vec<DateGroup> {
    open spec fn presentable(&self) -> bool {
        dates_valid(self@) && dates_sorted(self@)
    }

    /// The `YYYY-MM-DD` strings of the groups' days, one per group in group
    /// order — which is ascending lexicographic order of the strings.
    fn get_sorted_dates_from_grouped_games(&self) -> (dates: Vec<String>)
        ensures
            dates@.len() == self@.len(),
            forall|i: int|
                0 <= i < self@.len() ==> (#[trigger] dates@[i])@ == date_chars(self@[i].date),
            forall|i: int, j: int|
                0 <= i < j < dates@.len() ==> lex_lt(#[trigger] dates@[i]@, #[trigger] dates@[j]@),
    {
        let mut dates: Vec<String> = Vec::new();
        let mut k: usize = 0;
        while k < self.len()
            invariant
                k <= self@.len(),
                dates_valid(self@),
                dates_sorted(self@),
                dates@.len() == k,
                forall|i: int|
                    0 <= i < k ==> (#[trigger] dates@[i])@ == date_chars(self@[i].date),
            decreases self@.len() - k,
        {
            let ds = date_string(&self[k].date);
            dates.push(ds);
            k = k + 1;
        }
        proof {
            assert forall|i: int, j: int| 0 <= i < j < dates@.len() implies lex_lt(
                #[trigger] dates@[i]@,
                #[trigger] dates@[j]@,
            ) by {
                lemma_date_order_is_string_order(self@[i].date, self@[j].date);
            }
        }
        dates
    }
}

/// A character sequence occurs among the strings of `sel`.
pub open spec fn str_in(sel: Seq<String>, cs: Seq<char>) -> bool {
    exists|i: int| 0 <= i < sel.len() && (#[trigger] sel[i])@ == cs
}

/// Whether `x` occurs among the strings of `v`.
pub fn contains_string(v: &Vec<String>, x: &String) -> (r: bool)
    ensures
        r == str_in(v@, x@),
{
    let mut k: usize = 0;
    let mut found = false;
    while k < v.len()
        invariant
            k <= v@.len(),
            found == str_in(v@.take(k as int), x@),
        decreases v@.len() - k,
    {
        let ghost pre = v@.take(k as int);
        let ghost post = v@.take(k as int + 1);
        if v[k] == *x {
            found = true;
        }
        proof {
            assert(forall|i: int| 0 <= i < k + 1 ==> #[trigger] post[i] == v@[i]);
            if v@[k as int]@ == x@ {
                assert(post[k as int]@ == x@);
                assert(str_in(post, x@));
            } else {
                if str_in(post, x@) {
                    let w = choose|w: int| 0 <= w < post.len() && (#[trigger] post[w])@ == x@;
                    assert(w < k);
                    assert(pre[w]@ == x@);
                    assert(str_in(pre, x@));
                }
                if str_in(pre, x@) {
                    let w = choose|w: int| 0 <= w < pre.len() && (#[trigger] pre[w])@ == x@;
                    assert(post[w]@ == x@);
                    assert(str_in(post, x@));
                }
            }
        }
        k = k + 1;
    }
    proof {
        assert(v@.take(v@.len() as int) =~= v@);
    }
    found
}

/// The members of the first `n` groups whose day string the user selected,
/// in group order.
pub open spec fn selection_upto(groups: Seq<DateGroup>, sel: Seq<String>, n: int) -> Seq<Game>
    decreases n,
{
    if n <= 0 {
        Seq::empty()
    } else {
        selection_upto(groups, sel, n - 1) + (if str_in(sel, date_chars(groups[n - 1].date)) {
            groups[n - 1].members@
        } else {
            Seq::empty()
        })
    }
}

/// The members of the groups whose day string the user selected, in group
/// order.
pub open spec fn selection_spec(groups: Seq<DateGroup>, sel: Seq<String>) -> Seq<Game> {
    selection_upto(groups, sel, groups.len() as int)
}

/// The games of the groups whose `YYYY-MM-DD` string occurs in `selected`,
/// in group order, members of one group in their stored order.
pub fn select_games(groups: &Vec<DateGroup>, selected: &Vec<String>) -> (r: Vec<Game>)
    requires
        dates_valid(groups@),
    ensures
        r@ == selection_spec(groups@, selected@),
{
    let mut r: Vec<Game> = Vec::new();
    let mut k: usize = 0;
    while k < groups.len()
        invariant
            k <= groups@.len(),
            dates_valid(groups@),
            r@ == selection_upto(groups@, selected@, k as int),
        decreases groups@.len() - k,
    {
        let ghost r_pre = r@;
        let ds = date_string(&groups[k].date);
        if contains_string(selected, &ds) {
            let mut m: usize = 0;
            let members = &groups[k].members;
            while m < members.len()
                invariant
                    m <= members@.len(),
                    members == &groups@[k as int].members,
                    r@ == r_pre + members@.take(m as int),
                decreases members@.len() - m,
            {
                r.push(members[m].clone());
                proof {
                    assert(members@.take(m as int + 1) =~= members@.take(m as int).push(
                        members@[m as int],
                    ));
                    assert(r@ =~= r_pre + members@.take(m as int + 1));
                }
                m = m + 1;
            }
            proof {
                assert(members@.take(members@.len() as int) =~= members@);
                assert(r@ =~= selection_upto(groups@, selected@, k as int + 1));
            }
        } else {
            proof {
                assert(r@ =~= selection_upto(groups@, selected@, k as int + 1));
            }
        }
        k = k + 1;
    }
    r
}

pub trait GetGamesGroupedByDate {
    /// Whether the collection is fit for grouping.
    spec fn groupable(&self) -> bool;

    fn get_games_grouped_by_date(&self) -> (groups: Vec<DateGroup>)
        requires
            self.groupable(),
    ;
}

impl GetGamesGroupedByDate for Vec<Game> {
    open spec fn groupable(&self) -> bool {
        valid_games(self@)
    }

    /// Filter to 9x9 boards and gather into per-day groups, ordered by day.
    fn get_games_grouped_by_date(&self) -> (groups: Vec<DateGroup>)
        ensures
            grouped_by_date(self@, groups@),
    {
        filter_and_group(self)
    }
}

} // verus!

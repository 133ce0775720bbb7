//! Leaderboards: the order of the established ratings, overall and per
//! character, and the character that represents a player.

use vstd::prelude::*;
use crate::records::PlayerRating;

verus! {

/// Whether row `a` stands above row `b` on a leaderboard: by the higher
/// value; among equal values by the lower player identifier, then by the
/// lower character.
pub open spec fn ranks_before(a: PlayerRating, b: PlayerRating) -> bool {
    a.rating.value > b.rating.value || (a.rating.value == b.rating.value && (a.id < b.id || (a.id
        == b.id && a.char_id < b.char_id)))
}

/// Computes [`ranks_before`].
pub fn stands_above(a: &PlayerRating, b: &PlayerRating) -> (res: bool)
    ensures
        res == ranks_before(*a, *b),
{
    a.rating.value > b.rating.value || (a.rating.value == b.rating.value && (a.id < b.id || (a.id
        == b.id && a.char_id < b.char_id)))
}

/// Whether a row belongs on a leaderboard: its deviation does not exceed
/// the low-confidence cutoff, and it is of the character asked for, if
/// one is.
pub open spec fn listed(row: PlayerRating, cutoff: int, only: Option<i64>) -> bool {
    row.rating.deviation <= cutoff && (only matches Some(char_id) ==> row.char_id == char_id)
}

/// Whether no row of a board stands above a row that comes before it.
pub open spec fn in_order(board: Seq<PlayerRating>) -> bool {
    forall|i: int, j: int|
        0 <= i < j < board.len() ==> !ranks_before(#[trigger] board[j], #[trigger] board[i])
}

/// The place at which a row enters a board: behind the last row that
/// stands above it.
pub open spec fn insert_point(board: Seq<PlayerRating>, row: PlayerRating) -> int
    decreases board.len(),
{
    if board.len() == 0 {
        0
    } else if ranks_before(board.last(), row) {
        board.len() as int
    } else {
        insert_point(board.drop_last(), row)
    }
}

/// The board of the listed rows of a table, best first.
pub open spec fn ranking(table: Seq<PlayerRating>, cutoff: int, only: Option<i64>) -> Seq<
    PlayerRating,
>
    decreases table.len(),
{
    if table.len() == 0 {
        Seq::empty()
    } else {
        let rest = ranking(table.drop_last(), cutoff, only);
        if listed(table.last(), cutoff, only) {
            rest.insert(insert_point(rest, table.last()), table.last())
        } else {
            rest
        }
    }
}

/// The insert point lies within the board; every row from it on does not
/// stand above the new row, and the row before it does.
pub proof fn lemma_insert_point(board: Seq<PlayerRating>, row: PlayerRating)
    ensures
        0 <= insert_point(board, row) <= board.len(),
        forall|k: int|
            insert_point(board, row) <= k < board.len() ==> !ranks_before(#[trigger] board[k], row),
        insert_point(board, row) > 0 ==> ranks_before(board[insert_point(board, row) - 1], row),
    decreases board.len(),
{
    if board.len() > 0 && !ranks_before(board.last(), row) {
        lemma_insert_point(board.drop_last(), row);
        let p = insert_point(board.drop_last(), row);
        assert forall|k: int| p <= k < board.len() implies !ranks_before(
            #[trigger] board[k],
            row,
        ) by {
            if k < board.len() - 1 {
                assert(board[k] == board.drop_last()[k]);
            }
        }
        if p > 0 {
            assert(board[p - 1] == board.drop_last()[p - 1]);
        }
    }
}

/// A board in order stays in order when a row enters at its insert point.
pub proof fn lemma_insert_keeps_order(board: Seq<PlayerRating>, row: PlayerRating)
    requires
        in_order(board),
    ensures
        in_order(board.insert(insert_point(board, row), row)),
{
    lemma_insert_point(board, row);
    let p = insert_point(board, row);
    let next = board.insert(p, row);
    assert forall|i: int, j: int| 0 <= i < j < next.len() implies !ranks_before(
        #[trigger] next[j],
        #[trigger] next[i],
    ) by {
        if j == p {
            assert(next[i] == board[i]);
            if i < p - 1 {
                assert(!ranks_before(board[p - 1], board[i]));
            }
        } else if i == p {
            assert(next[j] == board[j - 1]);
        } else if i < p && j < p {
            assert(next[i] == board[i] && next[j] == board[j]);
        } else if i < p && j > p {
            assert(next[i] == board[i] && next[j] == board[j - 1]);
            if i != j - 1 {
                assert(!ranks_before(board[j - 1], board[i]));
            }
        } else {
            assert(next[i] == board[i - 1] && next[j] == board[j - 1]);
        }
    }
}

/// A leaderboard is in order: by falling value, ties by player and
/// character.
pub proof fn law_ranking_in_order(table: Seq<PlayerRating>, cutoff: int, only: Option<i64>)
    ensures
        in_order(ranking(table, cutoff, only)),
    decreases table.len(),
{
    if table.len() > 0 {
        law_ranking_in_order(table.drop_last(), cutoff, only);
        lemma_insert_keeps_order(ranking(table.drop_last(), cutoff, only), table.last());
    }
}

/// A leaderboard holds exactly the listed rows of the table, each as often
/// as the table holds it.
pub proof fn law_ranking_members(table: Seq<PlayerRating>, cutoff: int, only: Option<i64>)
    ensures
        ranking(table, cutoff, only).to_multiset() == table.filter(
            |row: PlayerRating| listed(row, cutoff, only),
        ).to_multiset(),
        ranking(table, cutoff, only).len() <= table.len(),
    decreases table.len(),
{
    broadcast use vstd::seq_lib::group_to_multiset_ensures;

    let keep = |row: PlayerRating| listed(row, cutoff, only);
    if table.len() == 0 {
        reveal(Seq::filter);
        assert(table.filter(keep) == Seq::<PlayerRating>::empty());
    } else {
        let rest = table.drop_last();
        law_ranking_members(rest, cutoff, only);
        let board = ranking(rest, cutoff, only);
        reveal(Seq::filter);
        if listed(table.last(), cutoff, only) {
            lemma_insert_point(board, table.last());
            let p = insert_point(board, table.last());
            vstd::seq_lib::to_multiset_insert(board, p, table.last());
        }
    }
}

/// Puts a row on a board at its insert point.
pub fn place(board: &mut Vec<PlayerRating>, row: PlayerRating)
    ensures
        final(board)@ == old(board)@.insert(insert_point(old(board)@, row), row),
{
    let mut at: usize = board.len();
    assert(board@.take(at as int) == board@);
    while at > 0 && !stands_above(&board[at - 1], &row)
        invariant
            at <= board@.len(),
            board@ == old(board)@,
            insert_point(board@, row) == insert_point(board@.take(at as int), row),
        decreases at,
    {
        proof {
            assert(board@.take(at as int).drop_last() == board@.take(at - 1));
            assert(board@.take(at as int).last() == board@[at - 1]);
        }
        at = at - 1;
    }
    proof {
        if at > 0 {
            assert(board@.take(at as int).last() == board@[at - 1]);
        }
    }
    board.insert(at, row);
}

/// The leaderboard of a table: the rows whose deviation does not exceed
/// `cutoff`, of the character `only` if one is given, best first.
pub fn rank(table: &Vec<PlayerRating>, cutoff: i64, only: Option<i64>) -> (board: Vec<
    PlayerRating,
>)
    ensures
        board@ == ranking(table@, cutoff as int, only),
{
    let mut board: Vec<PlayerRating> = Vec::new();
    let mut i: usize = 0;
    while i < table.len()
        invariant
            i <= table@.len(),
            board@ == ranking(table@.take(i as int), cutoff as int, only),
        decreases table@.len() - i,
    {
        let row = table[i];
        proof {
            assert(table@.take(i + 1).drop_last() == table@.take(i as int));
            assert(table@.take(i + 1).last() == row);
        }
        let of_character = match only {
            Some(char_id) => row.char_id == char_id,
            None => true,
        };
        if row.rating.deviation <= cutoff && of_character {
            place(&mut board, row);
        }
        i = i + 1;
    }
    proof {
        assert(table@.take(i as int) == table@);
    }
    board
}

/// The cautious estimate of a row's skill: the value less three
/// deviations.
pub open spec fn cautious(row: PlayerRating) -> int {
    row.rating.value - 3 * row.rating.deviation
}

/// The row that represents a player among the first rows of a table: the
/// one with the highest cautious estimate, the earliest of several.
pub open spec fn primary_row(table: Seq<PlayerRating>, id: int) -> Option<PlayerRating>
    decreases table.len(),
{
    if table.len() == 0 {
        None
    } else {
        let best = primary_row(table.drop_last(), id);
        let row = table.last();
        if row.id != id {
            best
        } else {
            match best {
                Some(held) => if cautious(row) > cautious(held) {
                    Some(row)
                } else {
                    best
                },
                None => Some(row),
            }
        }
    }
}

/// The primary row is one of the player's rows, and none of the player's
/// rows has a higher cautious estimate: a high value that is still
/// uncertain does not outrank a lower one that is settled.
pub proof fn law_primary_is_best(table: Seq<PlayerRating>, id: int)
    ensures
        primary_row(table, id) is Some <==> exists|i: int|
            0 <= i < table.len() && (#[trigger] table[i]).id == id,
        primary_row(table, id) matches Some(best) ==> best.id == id && table.contains(best)
            && forall|i: int|
            0 <= i < table.len() && (#[trigger] table[i]).id == id ==> cautious(table[i])
                <= cautious(best),
    decreases table.len(),
{
    if table.len() > 0 {
        let rest = table.drop_last();
        law_primary_is_best(rest, id);
        let row = table.last();
        assert(table[table.len() - 1] == row);
        if primary_row(rest, id) is Some {
            let i = choose|i: int| 0 <= i < rest.len() && (#[trigger] rest[i]).id == id;
            assert(table[i] == rest[i]);
            let held = primary_row(rest, id)->0;
            let at = choose|k: int| 0 <= k < rest.len() && rest[k] == held;
            assert(table[at] == held);
        }
        if primary_row(table, id) is Some {
            let best = primary_row(table, id)->0;
            assert forall|i: int| 0 <= i < table.len() && (#[trigger] table[i]).id
                == id implies cautious(table[i]) <= cautious(best) by {
                if i < rest.len() {
                    assert(table[i] == rest[i]);
                }
            }
        } else {
            assert forall|i: int| 0 <= i < table.len() implies (#[trigger] table[i]).id != id by {
                if i < rest.len() {
                    assert(table[i] == rest[i]);
                }
            }
        }
    }
}

/// The character that represents a player: the one of the player's rows
/// with the highest value less three deviations.
pub fn get_player_highest_rated_character(table: &Vec<PlayerRating>, id: i64) -> (res: Option<i64>)
    requires
        forall|i: int| 0 <= i < table@.len() ==> (#[trigger] table@[i]).wf(),
    ensures
        res == match primary_row(table@, id as int) {
            Some(row) => Some(row.char_id),
            None => None,
        },
{
    let mut best: Option<PlayerRating> = None;
    let mut i: usize = 0;
    while i < table.len()
        invariant
            forall|k: int| 0 <= k < table@.len() ==> (#[trigger] table@[k]).wf(),
            i <= table@.len(),
            best == primary_row(table@.take(i as int), id as int),
            best matches Some(held) ==> held.wf(),
        decreases table@.len() - i,
    {
        let row = table[i];
        proof {
            assert(table@.take(i + 1).drop_last() == table@.take(i as int));
            assert(table@.take(i + 1).last() == row);
            assert(row.wf());
        }
        if row.id == id {
            best = match best {
                Some(held) => {
                    if row.rating.value - 3 * row.rating.deviation > held.rating.value - 3
                        * held.rating.deviation {
                        Some(row)
                    } else {
                        best
                    }
                },
                None => Some(row),
            };
        }
        i = i + 1;
    }
    proof {
        assert(table@.take(i as int) == table@);
    }
    match best {
        Some(row) => Some(row.char_id),
        None => None,
    }
}

} // verus!

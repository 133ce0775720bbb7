//! How well the ratings predict: the share of games won, by the chance
//! that the ratings gave beforehand.

use vstd::prelude::*;
use crate::experience::{share, share_of};
use crate::fixed::{div_round, lemma_round_div_error, round_div, ONE};
use crate::glicko::{expected_score, Rating};
use crate::records::{snapshots_wf, RatingSnapshot, Winner};

verus! {

/// One game for a chart of predictions: the bucket of the chance that the
/// ratings gave, and whether the game was won.
pub struct Sample {
    pub bucket: usize,
    pub won: bool,
}

/// The bucket of a chance in millionths on a scale of `steps` steps: the
/// nearest step.
pub open spec fn chance_bucket(chance: int, steps: int) -> int {
    round_div(chance * steps, ONE as int)
}

/// Computes [`chance_bucket`] for the chance of `own` against `other`.
pub fn bucket_of_chance(own: Rating, other: Rating, steps: usize) -> (bucket: usize)
    requires
        own.wf(),
        other.wf(),
        steps <= 1000,
    ensures
        bucket == chance_bucket(expected_score(own, other), steps as int),
        bucket <= steps,
{
    let chance = own.expected(other);
    assert(0 <= chance * steps <= ONE * steps) by (nonlinear_arith)
        requires
            0 <= chance <= ONE,
            0 <= steps,
    ;
    assert(ONE * steps <= 1_000_000_000) by (nonlinear_arith)
        requires
            ONE == 1_000_000,
            steps <= 1000,
    ;
    let wide: i128 = (chance as i128) * (steps as i128);
    proof {
        lemma_round_div_error(wide as int, ONE as int);
    }
    div_round(wide, ONE as i128) as usize
}

/// How many of the samples fall into a bucket.
pub open spec fn samples_in(samples: Seq<Sample>, bucket: int) -> int
    decreases samples.len(),
{
    if samples.len() == 0 {
        0
    } else {
        samples_in(samples.drop_last(), bucket) + if samples.last().bucket == bucket {
            1int
        } else {
            0int
        }
    }
}

/// How many of the samples of a bucket are wins.
pub open spec fn wins_in(samples: Seq<Sample>, bucket: int) -> int
    decreases samples.len(),
{
    if samples.len() == 0 {
        0
    } else {
        wins_in(samples.drop_last(), bucket) + if samples.last().bucket == bucket
            && samples.last().won {
            1int
        } else {
            0int
        }
    }
}

/// The wins of a bucket are part of its samples.
pub proof fn lemma_samples_bounds(samples: Seq<Sample>, bucket: int)
    ensures
        0 <= wins_in(samples, bucket) <= samples_in(samples, bucket) <= samples.len(),
    decreases samples.len(),
{
    if samples.len() > 0 {
        lemma_samples_bounds(samples.drop_last(), bucket);
    }
}

/// The share of wins in each of the buckets from zero to `steps`, in
/// millionths, nothing for a bucket without samples.
pub fn win_shares(samples: &Vec<Sample>, steps: usize) -> (shares: Vec<Option<i64>>)
    requires
        steps <= 1000,
        forall|i: int| 0 <= i < samples@.len() ==> (#[trigger] samples@[i]).bucket <= steps,
    ensures
        shares@.len() == steps + 1,
        forall|b: int|
            0 <= b <= steps ==> #[trigger] shares@[b] == share(
                wins_in(samples@, b),
                samples_in(samples@, b),
                1,
            ),
{
    let mut wins: Vec<u64> = Vec::new();
    let mut games: Vec<u64> = Vec::new();
    while wins.len() <= steps
        invariant
            wins@.len() <= steps + 1,
            games@.len() == wins@.len(),
            forall|b: int| 0 <= b < wins@.len() ==> wins@[b] == 0 && games@[b] == 0,
        decreases steps + 1 - wins@.len(),
    {
        wins.push(0);
        games.push(0);
    }
    let mut i: usize = 0;
    while i < samples.len()
        invariant
            forall|k: int| 0 <= k < samples@.len() ==> (#[trigger] samples@[k]).bucket <= steps,
            i <= samples@.len(),
            wins@.len() == steps + 1,
            games@.len() == steps + 1,
            forall|b: int|
                0 <= b <= steps ==> #[trigger] wins@[b] == wins_in(samples@.take(i as int), b),
            forall|b: int|
                0 <= b <= steps ==> #[trigger] games@[b] == samples_in(samples@.take(i as int), b),
        decreases samples@.len() - i,
    {
        let bucket = samples[i].bucket;
        let won = samples[i].won;
        let ghost old_wins = wins@;
        let ghost old_games = games@;
        proof {
            assert(samples@.take(i + 1).drop_last() == samples@.take(i as int));
            assert(samples@.take(i + 1).last() == samples@[i as int]);
            lemma_samples_bounds(samples@.take(i as int), bucket as int);
        }
        let held = games[bucket];
        games.set(bucket, held + 1);
        if won {
            let held = wins[bucket];
            wins.set(bucket, held + 1);
        }
        proof {
            assert forall|b: int| 0 <= b <= steps implies #[trigger] wins@[b] == wins_in(
                samples@.take(i + 1),
                b,
            ) by {
                assert(old_wins[b] == wins_in(samples@.take(i as int), b));
            }
            assert forall|b: int| 0 <= b <= steps implies #[trigger] games@[b] == samples_in(
                samples@.take(i + 1),
                b,
            ) by {
                assert(old_games[b] == samples_in(samples@.take(i as int), b));
            }
        }
        i = i + 1;
    }
    proof {
        assert(samples@.take(i as int) == samples@);
    }
    let mut shares: Vec<Option<i64>> = Vec::new();
    let mut b: usize = 0;
    while b <= steps
        invariant
            steps <= 1000,
            b <= steps + 1,
            wins@.len() == steps + 1,
            games@.len() == steps + 1,
            forall|k: int| 0 <= k <= steps ==> #[trigger] wins@[k] == wins_in(samples@, k),
            forall|k: int| 0 <= k <= steps ==> #[trigger] games@[k] == samples_in(samples@, k),
            shares@.len() == b,
            forall|k: int|
                0 <= k < b ==> #[trigger] shares@[k] == share(
                    wins_in(samples@, k),
                    samples_in(samples@, k),
                    1,
                ),
        decreases steps + 1 - b,
    {
        proof {
            lemma_samples_bounds(samples@, b as int);
            assert(wins@[b as int] == wins_in(samples@, b as int));
            assert(games@[b as int] == samples_in(samples@, b as int));
        }
        shares.push(share_of(wins[b], games[b], 1));
        b = b + 1;
    }
    shares
}

/// The samples of all matches of a history, each from the side of side A:
/// on a scale of a hundred steps, the chance that the snapshot gave side
/// A, and whether side A won.
pub open spec fn outcome_samples(snapshots: Seq<RatingSnapshot>) -> Seq<Sample> {
    Seq::new(
        snapshots.len(),
        |i: int|
            Sample {
                bucket: chance_bucket(
                    expected_score(snapshots[i].rating_a, snapshots[i].rating_b),
                    100,
                ) as usize,
                won: snapshots[i].game.winner == Winner::A,
            },
    )
}

/// The three columns of the chart of outcomes.
#[derive(Debug)]
pub struct Outcomes {
    /// The predicted chance of side A in percent, from zero to a hundred.
    pub predicted: Vec<i64>,
    /// The share of games that side A won among those with that
    /// prediction, in millionths.
    pub observed: Vec<Option<i64>>,
    /// The predicted chance in millionths: what a perfect prediction
    /// observes.
    pub ideal: Vec<i64>,
}

/// How often side A won, by the chance in percent that the ratings gave
/// it beforehand.
pub fn outcomes(snapshots: &Vec<RatingSnapshot>) -> (chart: Outcomes)
    requires
        snapshots_wf(snapshots@),
    ensures
        chart.predicted@.len() == 101,
        chart.observed@.len() == 101,
        chart.ideal@.len() == 101,
        forall|b: int|
            0 <= b <= 100 ==> #[trigger] chart.predicted@[b] == b && chart.ideal@[b] == b * 10_000,
        forall|b: int|
            0 <= b <= 100 ==> #[trigger] chart.observed@[b] == share(
                wins_in(outcome_samples(snapshots@), b),
                samples_in(outcome_samples(snapshots@), b),
                1,
            ),
{
    let mut samples: Vec<Sample> = Vec::new();
    let mut i: usize = 0;
    while i < snapshots.len()
        invariant
            snapshots_wf(snapshots@),
            i <= snapshots@.len(),
            samples@.len() == i,
            forall|k: int| 0 <= k < i ==> #[trigger] samples@[k] == outcome_samples(snapshots@)[k],
            forall|k: int| 0 <= k < i ==> (#[trigger] samples@[k]).bucket <= 100,
        decreases snapshots@.len() - i,
    {
        let snapshot = snapshots[i];
        assert(snapshot.wf());
        let bucket = bucket_of_chance(snapshot.rating_a, snapshot.rating_b, 100);
        samples.push(Sample { bucket, won: matches!(snapshot.game.winner, Winner::A) });
        i = i + 1;
    }
    assert(samples@ =~= outcome_samples(snapshots@));
    let observed = win_shares(&samples, 100);
    let mut predicted: Vec<i64> = Vec::new();
    let mut ideal: Vec<i64> = Vec::new();
    let mut b: i64 = 0;
    while b <= 100
        invariant
            0 <= b <= 101,
            predicted@.len() == b,
            ideal@.len() == b,
            forall|k: int| 0 <= k < b ==> #[trigger] predicted@[k] == k && ideal@[k] == k * 10_000,
        decreases 101 - b,
    {
        predicted.push(b);
        ideal.push(b * 10_000);
        b = b + 1;
    }
    Outcomes { predicted, observed, ideal }
}

/// The samples that one snapshot gives for a player's character: on a
/// scale of ten steps, the chance of the player and whether the player
/// won, once for each side that the player was on. A snapshot with a
/// deviation at or above the cutoff gives none.
pub open spec fn accuracy_samples_of(
    snapshot: RatingSnapshot,
    id: int,
    char_id: int,
    cutoff: int,
) -> Seq<Sample> {
    if !snapshot.confident(cutoff) {
        Seq::empty()
    } else {
        (if snapshot.game.id_a == id && snapshot.game.char_a == char_id {
            seq![
                Sample {
                    bucket: chance_bucket(expected_score(snapshot.rating_a, snapshot.rating_b), 10)
                        as usize,
                    won: snapshot.game.winner == Winner::A,
                },
            ]
        } else {
            Seq::empty()
        }) + (if snapshot.game.id_b == id && snapshot.game.char_b == char_id {
            seq![
                Sample {
                    bucket: chance_bucket(expected_score(snapshot.rating_b, snapshot.rating_a), 10)
                        as usize,
                    won: snapshot.game.winner == Winner::B,
                },
            ]
        } else {
            Seq::empty()
        })
    }
}

/// The samples of a history for a player's character.
pub open spec fn accuracy_samples(
    snapshots: Seq<RatingSnapshot>,
    id: int,
    char_id: int,
    cutoff: int,
) -> Seq<Sample>
    decreases snapshots.len(),
{
    if snapshots.len() == 0 {
        Seq::empty()
    } else {
        accuracy_samples(snapshots.drop_last(), id, char_id, cutoff) + accuracy_samples_of(
            snapshots.last(),
            id,
            char_id,
            cutoff,
        )
    }
}

/// How often a player's character won, by the chance in tenths that the
/// ratings gave it beforehand: eleven shares in millionths, nothing for a
/// chance that never occurred. Only matches in which both deviations were
/// below the cutoff count, whichever side the player was on.
pub fn player_rating_accuracy(
    snapshots: &Vec<RatingSnapshot>,
    id: i64,
    char_id: i64,
    cutoff: i64,
) -> (shares: Vec<Option<i64>>)
    requires
        snapshots_wf(snapshots@),
    ensures
        shares@.len() == 11,
        forall|b: int|
            0 <= b <= 10 ==> #[trigger] shares@[b] == share(
                wins_in(accuracy_samples(snapshots@, id as int, char_id as int, cutoff as int), b),
                samples_in(
                    accuracy_samples(snapshots@, id as int, char_id as int, cutoff as int),
                    b,
                ),
                1,
            ),
{
    let mut samples: Vec<Sample> = Vec::new();
    let mut i: usize = 0;
    while i < snapshots.len()
        invariant
            snapshots_wf(snapshots@),
            i <= snapshots@.len(),
            samples@ == accuracy_samples(
                snapshots@.take(i as int),
                id as int,
                char_id as int,
                cutoff as int,
            ),
            forall|k: int| 0 <= k < samples@.len() ==> (#[trigger] samples@[k]).bucket <= 10,
        decreases snapshots@.len() - i,
    {
        let snapshot = snapshots[i];
        let ghost before = samples@;
        proof {
            assert(snapshots@.take(i + 1).drop_last() == snapshots@.take(i as int));
            assert(snapshots@.take(i + 1).last() == snapshot);
            assert(snapshot.wf());
        }
        if snapshot.is_confident(cutoff) {
            if snapshot.game.id_a == id && snapshot.game.char_a == char_id {
                let bucket = bucket_of_chance(snapshot.rating_a, snapshot.rating_b, 10);
                samples.push(Sample { bucket, won: matches!(snapshot.game.winner, Winner::A) });
            }
            if snapshot.game.id_b == id && snapshot.game.char_b == char_id {
                let bucket = bucket_of_chance(snapshot.rating_b, snapshot.rating_a, 10);
                samples.push(Sample { bucket, won: matches!(snapshot.game.winner, Winner::B) });
            }
        }
        proof {
            assert(samples@ =~= before + accuracy_samples_of(
                snapshot,
                id as int,
                char_id as int,
                cutoff as int,
            ));
        }
        i = i + 1;
    }
    proof {
        assert(snapshots@.take(i as int) == snapshots@);
    }
    win_shares(&samples, 10)
}

} // verus!

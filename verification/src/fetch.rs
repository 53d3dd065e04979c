//! Decisions around fetching leaderboard payloads: classifying a raw
//! response, choosing the next action of the retry loop, and splitting
//! the player list into batches.  The fetching itself, the waiting and
//! the task handling live outside the library; they feed payloads and
//! attempt counts in and carry the chosen actions out.

use vstd::prelude::*;
use crate::text::starts_with_str;

verus! {

/// What a raw leaderboard response holds.
#[derive(Debug, Clone, Copy, PartialEq, Eq, Structural)]
pub enum PayloadKind {
    /// The page reporting an unknown player.
    NotFound,
    /// A markup page: the data is still being generated.
    Loading,
    /// Line-oriented score data.
    Data,
}

/// The marker page for an unknown player starts with this text.
pub open spec fn not_found_prefix() -> Seq<char> {
    "<!DOCTYPE html><html><head><title>404"@
}

/// Classification of a raw response: the not-found marker page, any
/// other markup (still loading), or data.
pub open spec fn payload_kind_spec(s: Seq<char>) -> PayloadKind {
    if not_found_prefix().is_prefix_of(s) {
        PayloadKind::NotFound
    } else if s.len() > 0 && s[0] == '<' {
        PayloadKind::Loading
    } else {
        PayloadKind::Data
    }
}

/// Classifies one raw leaderboard response.
pub fn classify_payload(s: &str) -> (k: PayloadKind)
    ensures
        k == payload_kind_spec(s@),
{
    if starts_with_str(s, "<!DOCTYPE html><html><head><title>404") {
        PayloadKind::NotFound
    } else if s.unicode_len() > 0 && s.get_char(0) == '<' {
        PayloadKind::Loading
    } else {
        PayloadKind::Data
    }
}

/// What the retry loop does next with one player.
#[derive(Debug, Clone, Copy, PartialEq, Eq, Structural)]
pub enum FetchAction {
    /// Score the payload.
    UseData,
    /// Skip this player and continue with the rest of the batch.
    SkipPlayer,
    /// Wait briefly and fetch the same player again.
    RetryAfterWait,
    /// The retry budget is exhausted; give the player up.
    GiveUp,
}

/// The retry policy: data is used, an unknown player is skipped (only
/// that player, the rest of the batch continues), and a still-loading
/// response is retried after a wait until the attempt budget runs out.
pub fn next_fetch_action(kind: PayloadKind, attempts: u64, max_attempts: u64) -> (a: FetchAction)
    ensures
        kind == PayloadKind::Data ==> a == FetchAction::UseData,
        kind == PayloadKind::NotFound ==> a == FetchAction::SkipPlayer,
        kind == PayloadKind::Loading && attempts < max_attempts ==> a == FetchAction::RetryAfterWait,
        kind == PayloadKind::Loading && attempts >= max_attempts ==> a == FetchAction::GiveUp,
{
    match kind {
        PayloadKind::Data => FetchAction::UseData,
        PayloadKind::NotFound => FetchAction::SkipPlayer,
        PayloadKind::Loading => {
            if attempts < max_attempts {
                FetchAction::RetryAfterWait
            } else {
                FetchAction::GiveUp
            }
        },
    }
}

/// Splits the player list into at most `pieces` batches that preserve
/// the overall order: concatenating the batches gives the list back,
/// and every batch holds at most the ceiling of `len / pieces` names.
pub fn split_batches(usernames: Vec<String>, pieces: usize) -> (r: Vec<Vec<String>>)
    requires
        pieces >= 1,
        usernames@.len() + pieces <= usize::MAX,
    ensures
        r.deep_view().flatten() == usernames.deep_view(),
        forall|b: int|
            0 <= b < r@.len() ==> (#[trigger] r@[b])@.len() <= (usernames@.len() as int - 1)
                / pieces as int + 1,
{
    let n = usernames.len();
    if n == 0 {
        let r: Vec<Vec<String>> = Vec::new();
        proof {
            assert(r.deep_view() =~= Seq::<Seq<Seq<char>>>::empty());
            assert(r.deep_view().flatten() =~= usernames.deep_view());
        }
        return r;
    }
    let size: usize = (n - 1) / pieces + 1;
    let mut r: Vec<Vec<String>> = Vec::new();
    let mut cur: Vec<String> = Vec::new();
    let mut i: usize = 0;
    proof {
        assert(r.deep_view().flatten() + cur.deep_view() =~= usernames.deep_view().take(0));
    }
    while i < n
        invariant
            i <= n,
            n == usernames@.len(),
            size as int == (n as int - 1) / pieces as int + 1,
            size >= 1,
            cur@.len() <= size,
            cur@.len() < size || cur@.len() == 0,
            r.deep_view().flatten() + cur.deep_view() == usernames.deep_view().take(i as int),
            forall|b: int| 0 <= b < r@.len() ==> (#[trigger] r@[b])@.len() <= size,
        decreases n - i,
    {
        let ghost old_flat = r.deep_view().flatten();
        let ghost old_cur = cur.deep_view();
        let ghost old_r = r.deep_view();
        cur.push(usernames[i].clone());
        proof {
            assert(usernames.deep_view()[i as int] == usernames@[i as int]@);
            assert(cur.deep_view() =~= old_cur.push(usernames.deep_view()[i as int]));
            assert(usernames.deep_view().take(i as int + 1) =~= usernames.deep_view().take(
                i as int,
            ).push(usernames.deep_view()[i as int]));
            assert(old_flat + cur.deep_view() =~= usernames.deep_view().take(i as int + 1));
        }
        if cur.len() == size {
            let ghost pushed = cur.deep_view();
            r.push(cur);
            cur = Vec::new();
            proof {
                assert(r.deep_view() =~= old_r.push(pushed));
                old_r.lemma_flatten_push(pushed);
                assert(cur.deep_view() =~= Seq::<Seq<char>>::empty());
                assert(r.deep_view().flatten() + cur.deep_view() =~= usernames.deep_view().take(
                    i as int + 1,
                ));
            }
        }
        i = i + 1;
    }
    if cur.len() > 0 {
        let ghost old_r = r.deep_view();
        let ghost old_cur = cur.deep_view();
        r.push(cur);
        proof {
            assert(r.deep_view() =~= old_r.push(old_cur));
            old_r.lemma_flatten_push(old_cur);
            assert(usernames.deep_view().take(n as int) =~= usernames.deep_view());
            assert(r.deep_view().flatten() =~= usernames.deep_view());
        }
    } else {
        proof {
            assert(usernames.deep_view().take(n as int) =~= usernames.deep_view());
            assert(cur.deep_view() =~= Seq::<Seq<char>>::empty());
            assert(r.deep_view().flatten() + cur.deep_view() =~= r.deep_view().flatten());
            assert(r.deep_view().flatten() =~= usernames.deep_view());
        }
    }
    r
}

} // verus!

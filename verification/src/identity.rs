//! Profile identities: which saved profile holds the same account as some
//! credentials, and the ids that new profiles get.
use vstd::prelude::*;

use crate::text::{seq_lt, str_eq};

verus! {

/// What makes two credentials the same account: the user, the workspace or
/// organisation, and the plan.
#[derive(Debug)]
pub struct ProfileIdentityKey {
    pub principal_id: String,
    pub workspace_or_org_id: String,
    pub plan_type: String,
}

/// The characters of an identity's parts.
pub struct IdentityView {
    pub principal_id: Seq<char>,
    pub workspace_or_org_id: Seq<char>,
    pub plan_type: Seq<char>,
}

impl View for ProfileIdentityKey {
    type V = IdentityView;

    open spec fn view(&self) -> IdentityView {
        IdentityView {
            principal_id: self.principal_id@,
            workspace_or_org_id: self.workspace_or_org_id@,
            plan_type: self.plan_type@,
        }
    }
}

/// What the library reads of a saved credentials file: the account's email
/// and plan, its account id, whether it is an API-key profile, and its
/// identity when the credentials carry a complete one.
#[derive(Debug)]
pub struct TokenSummary {
    pub email: Option<String>,
    pub plan: Option<String>,
    pub account_id: Option<String>,
    pub is_api_key: bool,
    pub identity: Option<ProfileIdentityKey>,
}

/// The characters of an optional string.
pub open spec fn opt_view(o: Option<String>) -> Option<Seq<char>> {
    match o {
        Some(s) => Some(s@),
        None => None,
    }
}

/// Whether two identities are the same account.
pub fn identity_eq(a: &ProfileIdentityKey, b: &ProfileIdentityKey) -> (r: bool)
    ensures
        r == (a@ == b@),
{
    str_eq(a.principal_id.as_str(), b.principal_id.as_str()) && str_eq(
        a.workspace_or_org_id.as_str(),
        b.workspace_or_org_id.as_str(),
    ) && str_eq(a.plan_type.as_str(), b.plan_type.as_str())
}

/// A copy of an optional string.
pub fn clone_opt(o: &Option<String>) -> (r: Option<String>)
    ensures
        opt_view(r) == opt_view(*o),
{
    match o {
        Some(s) => Some(s.clone()),
        None => None,
    }
}

} // verus!

verus! {

/// The start of snowflake time: 2024-01-01T00:00:00Z in Unix milliseconds.
pub const SNOWFLAKE_EPOCH_MS: u64 = 1_704_067_200_000;

/// Milliseconds since the snowflake epoch, or 0 before it.
pub fn current_snowflake_millis(unix_ms: u64) -> (r: u64)
    ensures
        r == (if unix_ms >= SNOWFLAKE_EPOCH_MS {
            unix_ms - SNOWFLAKE_EPOCH_MS
        } else {
            0
        }),
{
    if unix_ms >= SNOWFLAKE_EPOCH_MS {
        unix_ms - SNOWFLAKE_EPOCH_MS
    } else {
        0
    }
}

/// The millisecond and sequence number that follow `previous` (millisecond
/// in the high bits, 12-bit sequence in the low bits) at time `now_ms`.
pub open spec fn snowflake_next(now_ms: u64, previous: u64) -> (u64, u64) {
    let previous_ms = previous >> 12u64;
    let previous_sequence = previous & 4095u64;
    if now_ms > previous_ms {
        (now_ms, 0u64)
    } else if previous_sequence < 4095u64 {
        (previous_ms, (previous_sequence + 1) as u64)
    } else {
        ((previous_ms + 1) as u64, 0u64)
    }
}

/// The generator state for a millisecond and sequence number.
pub open spec fn snowflake_state(millis: u64, sequence: u64) -> u64 {
    (millis << 12u64) | sequence
}

/// The id for a millisecond, node and sequence number.
pub open spec fn snowflake_id(millis: u64, node: u64, sequence: u64) -> u64 {
    (millis << 22u64) | ((node & 1023u64) << 12u64) | sequence
}

/// The id of a generator state on `node`.
pub open spec fn snowflake_id_of_state(state: u64, node: u64) -> u64 {
    snowflake_id(state >> 12u64, node, state & 4095u64)
}

/// One step of the snowflake generator: from the previous state and the
/// current time (milliseconds since the snowflake epoch) to the next state
/// and the id it gives on `node`. The millisecond is the later of now and
/// the previous one; within one millisecond the 12-bit sequence counts up,
/// and when it is spent the millisecond moves on by one.
pub fn snowflake_step(now_ms: u64, previous: u64, node: u64) -> (r: (u64, u64))
    ensures
        r.0 == snowflake_state(snowflake_next(now_ms, previous).0, snowflake_next(now_ms, previous).1),
        r.1 == snowflake_id(snowflake_next(now_ms, previous).0, node, snowflake_next(now_ms, previous).1),
{
    let previous_ms = previous >> 12u64;
    let previous_sequence = previous & 4095u64;
    assert(previous_sequence < 4096 && previous_ms < 0x10_0000_0000_0000u64) by (bit_vector)
        requires
            previous_sequence == previous & 4095u64,
            previous_ms == previous >> 12u64,
    ;
    let (millis, sequence) = if now_ms > previous_ms {
        (now_ms, 0u64)
    } else if previous_sequence < 4095 {
        (previous_ms, previous_sequence + 1)
    } else {
        (previous_ms + 1, 0u64)
    };
    let next = (millis << 12u64) | sequence;
    let id = (millis << 22u64) | ((node & 1023u64) << 12u64) | sequence;
    (next, id)
}

/// Ids follow the generator's states: while milliseconds stay below 2^41
/// (some 69 years after the snowflake epoch), a later state gives a larger id.
pub proof fn law_snowflake_ids_increase_with_state(s1: u64, s2: u64, node: u64)
    requires
        s1 < s2,
        s2 < 0x20_0000_0000_0000u64,
    ensures
        snowflake_id_of_state(s1, node) < snowflake_id_of_state(s2, node),
{
    assert(snowflake_id(s1 >> 12u64, node, s1 & 4095u64) < snowflake_id(s2 >> 12u64, node, s2 & 4095u64))
        by (bit_vector)
        requires
            s1 < s2,
            s2 < 0x20_0000_0000_0000u64,
    ;
}

/// Each step moves the generator to a larger state, and the id it returns is
/// the id of that state; so the ids one generator hands out never repeat,
/// as long as the clock reads below 2^41 milliseconds.
pub proof fn law_snowflake_step_increases(now_ms: u64, previous: u64, node: u64)
    requires
        now_ms < 0x200_0000_0000u64,
        previous >> 12u64 < 0x1FF_FFFF_FFFFu64,
    ensures
        previous < snowflake_state(snowflake_next(now_ms, previous).0, snowflake_next(now_ms, previous).1),
        snowflake_state(snowflake_next(now_ms, previous).0, snowflake_next(now_ms, previous).1)
            < 0x20_0000_0000_0000u64,
        snowflake_id(snowflake_next(now_ms, previous).0, node, snowflake_next(now_ms, previous).1)
            == snowflake_id_of_state(
            snowflake_state(snowflake_next(now_ms, previous).0, snowflake_next(now_ms, previous).1),
            node,
        ),
{
    let pm = previous >> 12u64;
    let ps = previous & 4095u64;
    assert(ps < 4096 && pm < 0x200_0000_0000u64 && previous == (pm << 12u64) | ps) by (bit_vector)
        requires
            pm == previous >> 12u64,
            ps == previous & 4095u64,
            pm < 0x1FF_FFFF_FFFFu64,
    ;
    let (m, s) = snowflake_next(now_ms, previous);
    assert(m < 0x200_0000_0000u64 && s < 4096);
    assert((m > pm || (m == pm && s > ps)) ==> ((pm << 12u64) | ps) < ((m << 12u64) | s)) by (bit_vector)
        requires
            m < 0x200_0000_0000u64,
            s < 4096,
            ps < 4096,
            pm < 0x200_0000_0000u64,
    ;
    assert(((m << 12u64) | s) < 0x20_0000_0000_0000u64) by (bit_vector)
        requires
            m < 0x200_0000_0000u64,
            s < 4096,
    ;
    assert(((m << 12u64) | s) >> 12u64 == m && ((m << 12u64) | s) & 4095u64 == s) by (bit_vector)
        requires
            m < 0x200_0000_0000u64,
            s < 4096,
    ;
}

} // verus!

verus! {

/// Credentials that carry identity `k`.
pub open spec fn summary_matches(t: TokenSummary, k: IdentityView) -> bool {
    match t.identity {
        Some(i) => i@ == k,
        None => false,
    }
}

/// Whether the credentials belong to the account `identity`.
pub fn matches_identity(tokens: &TokenSummary, identity: &ProfileIdentityKey) -> (b: bool)
    ensures
        b == summary_matches(*tokens, identity@),
{
    match &tokens.identity {
        Some(k) => identity_eq(k, identity),
        None => false,
    }
}

/// The least of the candidate ids (in string order), when there is one.
pub fn pick_primary(candidates: &Vec<String>) -> (r: Option<String>)
    ensures
        r is None <==> candidates@.len() == 0,
        r matches Some(m) ==> crate::text::views(candidates@).contains(m@),
        r matches Some(m) ==> forall|i: int|
            0 <= i < candidates@.len() ==> candidates@[i]@ == m@ || seq_lt(m@, #[trigger] candidates@[i]@),
{
    if candidates.len() == 0 {
        return None;
    }
    let mut best: usize = 0;
    let mut i: usize = 1;
    while i < candidates.len()
        invariant
            0 <= best < i <= candidates@.len(),
            forall|k: int|
                0 <= k < i ==> candidates@[k]@ == candidates@[best as int]@ || seq_lt(
                    candidates@[best as int]@,
                    #[trigger] candidates@[k]@,
                ),
        decreases candidates.len() - i,
    {
        let lt = crate::text::str_lt(candidates[i].as_str(), candidates[best].as_str());
        proof {
            crate::text::lemma_seq_lt_strict_total(candidates@[i as int]@, candidates@[best as int]@);
            if lt {
                assert forall|k: int| 0 <= k < i + 1 implies candidates@[k]@ == candidates@[i as int]@
                    || seq_lt(candidates@[i as int]@, #[trigger] candidates@[k]@) by {
                    if k < i && candidates@[k]@ != candidates@[best as int]@ {
                        crate::text::lemma_seq_lt_transitive(
                            candidates@[i as int]@,
                            candidates@[best as int]@,
                            candidates@[k]@,
                        );
                    }
                }
            }
        }
        if lt {
            best = i;
        }
        i = i + 1;
    }
    let m = candidates[best].clone();
    assert(crate::text::views(candidates@)[best as int] == m@);
    Some(m)
}

} // verus!

//! The Watch Registry: one immutable `WatchSpec` per watch entry, built once
//! at startup from the configuration values. A configuration whose four value
//! lists differ in length, or that contains an empty required field, is
//! rejected as a fatal error.
use vstd::prelude::*;
use crate::bytes::COMMA;
use crate::bytes::all_nonempty;
use crate::bytes::all_pieces_nonempty;
use crate::bytes::clone_bytes;
use crate::bytes::lemma_split_on_nonempty;
use crate::bytes::split_bytes;
use crate::bytes::split_on;
use crate::bytes::views_of;

verus! {

/// How a Monitor Task reacts to matches: the long-lived debounced policy
/// (restart, re-arm and keep streaming) or the single-shot policy (restart
/// once, then stop and let reconciliation re-discover the container).
#[derive(Clone, Copy, Debug, PartialEq, Eq)]
pub enum RestartPolicy {
    Debounced,
    SingleShot,
}

/// One watch entry: the container name whose logs are scanned, the target
/// names to restart on a match, the patterns whose presence in a log line
/// constitutes a match, and the skip-first debounce switch.
#[derive(Clone, Debug)]
pub struct WatchSpec {
    pub watch_name: Vec<u8>,
    pub restart_targets: Vec<Vec<u8>>,
    pub patterns: Vec<Vec<u8>>,
    pub skip_first: bool,
    pub policy: RestartPolicy,
}

impl WatchSpec {
    /// A well-formed entry names a container, at least one restart target and
    /// at least one pattern, none of them empty.
    pub open spec fn wf(&self) -> bool {
        &&& self.watch_name@.len() > 0
        &&& self.restart_targets@.len() > 0
        &&& self.patterns@.len() > 0
        &&& forall|i: int|
            0 <= i < self.restart_targets@.len() ==> self.restart_targets@[i]@.len() > 0
        &&& forall|i: int| 0 <= i < self.patterns@.len() ==> self.patterns@[i]@.len() > 0
    }
}

/// Why a configuration is refused at startup.
#[derive(Clone, Copy, Debug, PartialEq, Eq)]
pub enum ConfigError {
    CardinalityMismatch,
    EmptyField,
}

/// The four configuration value lists must come in equal numbers.
pub open spec fn lens_match(
    watch: Seq<Vec<u8>>,
    restart: Seq<Vec<u8>>,
    pattern: Seq<Vec<u8>>,
    skip_first: Seq<bool>,
) -> bool {
    &&& watch.len() == restart.len()
    &&& watch.len() == pattern.len()
    &&& watch.len() == skip_first.len()
}

/// One entry's values are usable: the watch name is non-empty and every
/// comma-separated target and pattern is non-empty.
pub open spec fn valid_entry(watch: Seq<u8>, restart_raw: Seq<u8>, pattern_raw: Seq<u8>) -> bool {
    &&& watch.len() > 0
    &&& all_pieces_nonempty(split_on(restart_raw, COMMA))
    &&& all_pieces_nonempty(split_on(pattern_raw, COMMA))
}

/// What the i-th built entry must hold.
pub open spec fn built_entry(
    w: WatchSpec,
    watch: Seq<u8>,
    restart_raw: Seq<u8>,
    pattern_raw: Seq<u8>,
    skip: bool,
) -> bool {
    &&& w.watch_name@ == watch
    &&& views_of(w.restart_targets@) == split_on(restart_raw, COMMA)
    &&& views_of(w.patterns@) == split_on(pattern_raw, COMMA)
    &&& w.skip_first == skip
    &&& w.policy is Debounced
    &&& w.wf()
}

/// Builds the Watch Registry from the raw configuration values: one watch
/// name, one comma-separated restart-target list, one comma-separated pattern
/// list and one skip-first switch per entry. Rejects mismatched cardinalities
/// and empty required fields; accepts everything else, exactly.
pub fn build_watch_specs(
    watch: &Vec<Vec<u8>>,
    restart: &Vec<Vec<u8>>,
    pattern: &Vec<Vec<u8>>,
    skip_first: &Vec<bool>,
) -> (r: Result<Vec<WatchSpec>, ConfigError>)
    ensures
        (r == Result::<Vec<WatchSpec>, ConfigError>::Err(ConfigError::CardinalityMismatch)) <==> !lens_match(
            watch@,
            restart@,
            pattern@,
            skip_first@,
        ),
        (r == Result::<Vec<WatchSpec>, ConfigError>::Err(ConfigError::EmptyField)) <==> (
        lens_match(watch@, restart@, pattern@, skip_first@) && exists|i: int|
            0 <= i < watch@.len() && !valid_entry(watch@[i]@, restart@[i]@, pattern@[i]@)),
        r is Ok <==> (lens_match(watch@, restart@, pattern@, skip_first@) && forall|i: int|
            0 <= i < watch@.len() ==> valid_entry(watch@[i]@, restart@[i]@, pattern@[i]@)),
        r is Ok ==> {
            &&& lens_match(watch@, restart@, pattern@, skip_first@)
            &&& r->Ok_0@.len() == watch@.len()
            &&& forall|i: int|
                0 <= i < watch@.len() ==> built_entry(
                    #[trigger] r->Ok_0@[i],
                    watch@[i]@,
                    restart@[i]@,
                    pattern@[i]@,
                    skip_first@[i],
                )
        },
{
    if watch.len() != restart.len() || watch.len() != pattern.len() || watch.len()
        != skip_first.len() {
        return Err(ConfigError::CardinalityMismatch);
    }
    let mut specs: Vec<WatchSpec> = Vec::new();
    let mut i: usize = 0;
    while i < watch.len()
        invariant
            lens_match(watch@, restart@, pattern@, skip_first@),
            i <= watch@.len(),
            specs@.len() == i,
            forall|k: int|
                0 <= k < i ==> valid_entry(watch@[k]@, restart@[k]@, pattern@[k]@),
            forall|k: int|
                0 <= k < i ==> built_entry(
                    #[trigger] specs@[k],
                    watch@[k]@,
                    restart@[k]@,
                    pattern@[k]@,
                    skip_first@[k],
                ),
        decreases watch@.len() - i,
    {
        if watch[i].len() == 0 {
            return Err(ConfigError::EmptyField);
        }
        let targets = split_bytes(restart[i].as_slice(), COMMA);
        if !all_nonempty(&targets) {
            return Err(ConfigError::EmptyField);
        }
        let pats = split_bytes(pattern[i].as_slice(), COMMA);
        if !all_nonempty(&pats) {
            return Err(ConfigError::EmptyField);
        }
        proof {
            lemma_split_on_nonempty(restart@[i as int]@, COMMA);
            lemma_split_on_nonempty(pattern@[i as int]@, COMMA);
        }
        let w = WatchSpec {
            watch_name: clone_bytes(&watch[i]),
            restart_targets: targets,
            patterns: pats,
            skip_first: skip_first[i],
            policy: RestartPolicy::Debounced,
        };
        proof {
            assert forall|j: int| 0 <= j < w.restart_targets@.len() implies w.restart_targets@[j]@.len()
                > 0 by {
                assert(views_of(w.restart_targets@)[j] == w.restart_targets@[j]@);
            }
            assert forall|j: int| 0 <= j < w.patterns@.len() implies w.patterns@[j]@.len() > 0 by {
                assert(views_of(w.patterns@)[j] == w.patterns@[j]@);
            }
            assert(w.wf());
        }
        specs.push(w);
        i += 1;
    }
    Ok(specs)
}

} // verus!

//! Reversible-gate-circuit proofs: traces, constraint systems and lookup arguments.

pub mod acceptance_laws;
pub mod accumulator_diff;
pub mod addition_laws;
pub mod chains;
pub mod circuit;
pub mod circuit_statement;
pub mod claims_laws;
pub mod commitment_laws;
pub mod components;
pub mod device;
pub mod device_laws;
pub mod execution_laws;
pub mod extension;
pub mod field;
pub mod field_laws;
pub mod fingerprint;
pub mod fingerprint_laws;
pub mod gate_laws;
pub mod hexes;
pub mod iadd;
pub mod iadd_air;
pub mod iadd_balance;
pub mod iadd_counts;
pub mod iadd_execution;
pub mod iadd_laws;
pub mod iadd_limbs;
pub mod iadd_lookups;
pub mod iadd_proof;
pub mod iadd_rows;
pub mod iadd_run;
pub mod kernel;
pub mod leaf;
pub mod logup;
pub mod lookup_agreement;
pub mod lookup_laws;
pub mod numbers;
pub mod parsing_laws;
pub mod planning_laws;
pub mod preprocessed;
pub mod prime;
pub mod program;
pub mod qubit_memory;
pub mod qubit_memory_balance;
pub mod qubit_memory_lookups;
pub mod recursion_consts;
pub mod recursion_laws;
pub mod row_laws;
pub mod run;
pub mod shard;
pub mod shard_proof;
pub mod shard_runs;
pub mod sizes;
pub mod sums;
pub mod trace_laws;
pub mod transcript;
pub mod whole_state;
pub mod whole_state_air;
pub mod whole_state_balance;
pub mod whole_state_claims;
pub mod whole_state_execution;
pub mod whole_state_laws;
pub mod whole_state_lookups;
pub mod whole_state_proof;
pub mod whole_state_row_laws;
pub mod whole_state_run;
pub mod whole_state_shots;

pub mod aead;
pub mod augsso;
pub mod augsso_auth;
pub mod augsso_fixture;
pub mod augsso_law;
pub mod augsso_prims;
pub mod augsso_run_law;
pub mod augsso_steps;
pub mod augsso_token;
pub mod augsso_update;
pub mod augsso_work;
pub mod bench_law;
pub mod bignum;
pub mod bls;
pub mod bytes;
pub mod cli;
pub mod crypto_augsso;
pub mod crypto_pastau;
pub mod decimal;
pub mod engine;
pub mod engine_grid;
pub mod engine_law;
pub mod field;
pub mod fixture_law;
pub mod float_text;
pub mod frame_law;
pub mod group;
pub mod hash;
pub mod ids;
pub mod interpolation;
pub mod jitter_law;
pub mod keys;
pub mod message_law;
pub mod modern_agent;
pub mod modp_law;
pub mod modp_toprf;
pub mod modular;
pub mod net_phases;
pub mod netsim;
pub mod network_law;
pub mod number_theory;
pub mod ops_law;
pub mod paper_agent;
pub mod paper_client;
pub mod paper_hash;
pub mod paper_law;
pub mod paper_math;
pub mod paper_protocol;
pub mod paper_run_law;
pub mod pastau;
pub mod pastau_fixture;
pub mod pastau_law;
pub mod pastau_prims;
pub mod pastau_run_law;
pub mod pastau_steps;
pub mod pastau_update;
pub mod pastau_wire;
pub mod pastau_work;
pub mod provider;
pub mod quorum;
pub mod quorum_bench;
pub mod report_law;
pub mod ristretto;
pub mod rng;
pub mod sampling;
pub mod shoup;
pub mod shoup_group;
pub mod shoup_law;
pub mod shoup_math;
pub mod ssh_agent;
pub mod stats;
pub mod store;
pub mod text;
pub mod text_law;
pub mod toprf;
pub mod unified;
pub mod unified_config;
pub mod unified_law;
pub mod unified_plan;
pub mod unified_run;
pub mod upspa_abd;
pub mod upspa_failure_law;
pub mod upspa_law;
pub mod upspa_phases;
pub mod upspa_recovery;
pub mod upspa_sp;
pub mod wire;

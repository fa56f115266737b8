//! Rule-based ranking of offered draft choices: several bounded heuristics,
//! combined into a multiplier on a base score, then a stable ranking with an
//! explanation of each score.
//!
//! All real values are fixed-point integers: a heuristic value `h` stands for
//! `h / SCALE`, a coefficient or a base score `w` for `w / SCALE`. The
//! multiplier is in units of `1 / SCALE^2` and the final score in units of
//! `1 / SCALE^3`, so composing scores involves no rounding.
mod text;
mod table;
mod heuristics;
mod scoring;
pub mod laws;

pub use text::{split_csv, parse_kv, parse_pair, csv_field_list, leading_number};
pub use table::CountTable;
pub use heuristics::{
    AttributeGroup, SCALE, SYNERGY_STEP, proximity_to_next_tier, tags_to_prefer_traits, hp_danger,
    stage_urgency, conflict_signal, synergy_tag_bonus, SlamFamily, slam_family, slam_bonus,
    item_slam_bonus,
};
pub use scoring::{
    CatalogEntry, Weights, Config, Detail, DEFAULT_BASE, score_one, rank_order, Reason, explain,
};

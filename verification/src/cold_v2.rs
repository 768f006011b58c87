//! Deterministic plan and encoder for the cold label stream of `series.bin`.

pub mod reader;
pub mod shapes;
pub mod encode;
pub mod blocks;
pub mod planner;
pub mod canonical;
pub mod ids;
pub mod normalize;
pub mod plan;
pub mod read_back;
pub mod plan_laws;
pub mod lookup;
pub mod written;
pub mod stored;
pub mod reader_laws;
pub mod block_laws;
pub mod corpus_laws;
pub mod search_laws;
pub mod section_laws;

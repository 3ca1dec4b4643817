pub use super::PositionEvaluator;

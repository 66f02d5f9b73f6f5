pub mod batch_completion;
pub mod completion;
pub mod exceptions;
pub mod extract;
pub mod payload;
pub mod witnessed_batch;

pub use batch_completion::{
    BatchCompletion, BatchCompletionAggregator, BatchCompletionError, BatchCompletionShard,
    BatchCompletionShardError, BatchCompletionStatement,
};
pub use completion::{Completion, CompletionProof, CompletionProofError};
pub use extract::{Extract, ExtractError, InclusionProof};
pub use payload::Payload;
pub use witnessed_batch::{WitnessedBatch, WitnessedBatchError};

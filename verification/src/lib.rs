//! A deterministic stand-in for a chat completion backend.
//!
//! A corpus of recorded conversations is read, the fragments of each
//! conversation are merged, and every reply of the assistant is filed under
//! the text of the messages that came before it. A request is answered by one
//! of the replies filed under the text of its messages.
//!
//! - [`role`], [`message`]: speakers and messages, and the key that a run of
//!   messages adds up to.
//! - [`error`]: why a corpus is rejected.
//! - [`json`], [`corpus`]: the corpus as a JSON document, and its records.
//! - [`conversations`]: merging fragments into conversations.
//! - [`faults`]: conversations made faulty on purpose.
//! - [`index`], [`request`]: the index of replies, and lookups in it.
//! - [`checking`]: the requests that a corpus can answer, and whether a reply
//!   to one is right.
//! - [`random`]: the calls into the random number generator.
//! - [`text`]: what is taken for granted of string slices.

pub mod checking;
pub mod conversations;
pub mod corpus;
pub mod error;
pub mod faults;
pub mod index;
pub mod json;
pub mod message;
pub mod random;
pub mod request;
pub mod role;
pub mod text;

pub use checking::{exchanges, Exchange};
pub use conversations::{canonical_id_of, merge, Conversation, Conversations, RawFragment};
pub use corpus::{build_conversations_data, decode_corpus};
pub use error::IngestError;
pub use faults::{inject_faults, FaultRate};
pub use index::{preprocess_hashed_responses, HashedResponses, Response};
pub use json::{read_json, Json};
pub use message::Message;
pub use request::{answer, ChatCompletionRequest, ChatCompletionResponse, LookupMiss};
pub use role::{parse_role, Role};

//! Core of a desktop chat companion that runs a local language model:
//! conversation/session management, mode-driven prompt construction,
//! retrieval augmentation, and the bounded token generation loop.

pub mod codec;
pub mod genloop;
pub mod lifecycle;
pub mod message;
pub mod mode;
pub mod prompt;
pub mod search;
pub mod session;
pub mod settings;
pub mod text;
pub mod upload;

pub use genloop::{GenError, GenLoop, MiaResponse};
pub use lifecycle::{ModelHandle, ModelState};
pub use message::{ChatMessage, Role, WebSource};
pub use mode::MiaMode;
pub use session::{ChatEntry, Conversation, SessionStore};
pub use settings::AppSettings;

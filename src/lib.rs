pub mod cache;
pub mod clock;
pub mod lru_store;
pub mod message;
pub mod seq_facts;
pub mod text;
pub mod retrieval;
pub mod prompts;
pub mod milestones;
pub mod summarize;
pub mod store;
pub mod context;
pub mod mentions;
pub mod system_prompt;
pub mod memory_text;
pub mod config;

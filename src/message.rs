use vstd::prelude::*;

verus! {

/// A chat message as the short-term cache holds it.
///
/// `timestamp` is in seconds since the Unix epoch.
#[derive(Clone, Debug)]
pub struct CachedMessage {
    pub id: u64,
    pub channel_id: u64,
    pub author_id: u64,
    pub author_name: String,
    pub content: String,
    pub timestamp: i64,
}

impl CachedMessage {
    pub fn new(
        id: u64,
        channel_id: u64,
        author_id: u64,
        author_name: String,
        content: String,
        timestamp: i64,
    ) -> (r: CachedMessage)
        ensures
            r.id == id,
            r.channel_id == channel_id,
            r.author_id == author_id,
            r.author_name == author_name,
            r.content == content,
            r.timestamp == timestamp,
    {
        CachedMessage { id, channel_id, author_id, author_name, content, timestamp }
    }
}

} // verus!

//! The decisions of a headless run: which model is used, what message is
//! sent, and how catalog paths are passed on.

use vstd::prelude::*;
use crate::attachments::UserContent;
use crate::text::{chars_of, push_str, trim_seq};

verus! {

/// A one-shot run without the terminal interface.  Paths are held as text.
pub struct HeadlessCommand {
    pub model: Option<String>,
    pub messages_json: Option<String>,
    pub global_model: String,
    pub session: Option<String>,
    pub session_config: Option<String>,
    pub remote: Option<String>,
    pub directory: Option<String>,
    pub catalogs: Vec<String>,
}

/// A message read from a conversation file: a user message with its
/// content, or a message of another kind.
pub enum HistoryMessage {
    User(Vec<UserContent>),
    Other,
}

/// Index of the first text part of `v`, or `v.len()`.
pub open spec fn first_text_index(v: Seq<UserContent>, i: int) -> int
    decreases v.len() - i,
{
    if i >= v.len() {
        v.len() as int
    } else if v[i] is Text {
        i
    } else {
        first_text_index(v, i + 1)
    }
}

pub proof fn lemma_first_text_index(v: Seq<UserContent>, i: int)
    requires
        0 <= i <= v.len(),
    ensures
        i <= first_text_index(v, i) <= v.len(),
        first_text_index(v, i) < v.len() ==> v[first_text_index(v, i)] is Text,
    decreases v.len() - i,
{
    if i < v.len() && !(v[i] is Text) {
        lemma_first_text_index(v, i + 1);
    }
}

/// The message sent for a conversation file: the first text of its last
/// message, which must be from the user.
pub open spec fn history_message(msgs: Seq<HistoryMessage>) -> Result<Seq<char>, Seq<char>> {
    if msgs.len() == 0 {
        Err("No messages in JSON file"@)
    } else {
        match msgs.last() {
            HistoryMessage::Other => Err("Last message must be from User"@),
            HistoryMessage::User(content) => {
                let k = first_text_index(content@, 0);
                if k < content@.len() {
                    Ok(
                        match content@[k] {
                            UserContent::Text { text } => text@,
                            _ => Seq::empty(),
                        },
                    )
                } else {
                    Err("Last message must contain text content"@)
                }
            },
        }
    }
}

pub open spec fn result_view(r: Result<String, String>) -> Result<Seq<char>, Seq<char>> {
    match r {
        Ok(s) => Ok(s@),
        Err(e) => Err(e@),
    }
}

fn text(s: &str) -> (r: String)
    ensures
        r@ == s@,
{
    let mut r = String::new();
    push_str(&mut r, s);
    r
}

impl HeadlessCommand {
    /// The model the run uses: the one asked for, else the global default.
    pub fn model_to_use(&self) -> (m: &String)
        ensures
            m == match self.model {
                Some(x) => x,
                None => self.global_model,
            },
    {
        match &self.model {
            Some(m) => m,
            None => &self.global_model,
        }
    }

    /// The message to send, from a conversation file's messages.
    pub fn message_from_history(msgs: &Vec<HistoryMessage>) -> (r: Result<String, String>)
        ensures
            result_view(r) == history_message(msgs@),
    {
        if msgs.len() == 0 {
            return Err(text("No messages in JSON file"));
        }
        let last = &msgs[msgs.len() - 1];
        match last {
            HistoryMessage::Other => Err(text("Last message must be from User")),
            HistoryMessage::User(content) => {
                let mut i: usize = 0;
                proof {
                    lemma_first_text_index(content@, 0);
                }
                while i < content.len()
                    invariant
                        i <= content.len(),
                        msgs@.len() > 0,
                        msgs@.last() == HistoryMessage::User(*content),
                        first_text_index(content@, 0) == first_text_index(content@, i as int),
                    decreases content.len() - i,
                {
                    match &content[i] {
                        UserContent::Text { text } => {
                            return Ok(text.clone());
                        },
                        _ => {},
                    }
                    i = i + 1;
                }
                Err(text("Last message must contain text content"))
            },
        }
    }

    /// The message to send, from what was read on standard input.
    pub fn message_from_stdin(buffer: String) -> (r: Result<String, String>)
        ensures
            result_view(r) == if trim_seq(buffer@).len() == 0 {
                Err::<Seq<char>, Seq<char>>("No input provided via stdin"@)
            } else {
                Ok(buffer@)
            },
    {
        let chars = chars_of(buffer.as_str());
        let trimmed = crate::text::trim_chars(&chars, 0, chars.len());
        assert(chars@.subrange(0, chars.len() as int) =~= chars@);
        if trimmed.len() == 0 {
            return Err(text("No input provided via stdin"));
        }
        Ok(buffer)
    }

    /// A catalog path as passed on: its canonical form when the path exists
    /// and canonicalizes, else the path as given.
    pub fn normalize_catalog_path(path: &String, exists: bool, canonical: Option<String>) -> (r:
        String)
        ensures
            r@ == match (exists, canonical) {
                (true, Some(c)) => c@,
                _ => path@,
            },
    {
        if exists {
            if let Some(c) = canonical {
                return c;
            }
        }
        path.clone()
    }
}

} // verus!

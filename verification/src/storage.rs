//! The records that the store keeps, as plain values, and the rule by which
//! a change is applied to a stored prompt. Structured values are carried as
//! JSON text and points in time as RFC 3339 text.

use crate::json::{json_of_list, print_list, result_text};
use crate::text::texts;
use vstd::prelude::*;

verus! {

/// A stored prompt.
#[derive(Debug, Clone)]
pub struct Prompt {
    pub id: String,
    pub title: String,
    pub body: String,
    pub language: Option<String>,
    pub model_hint: Option<String>,
    pub metadata: String,
    pub created_at: String,
    pub updated_at: String,
}

/// A prompt that is to be stored.
#[derive(Debug, Clone)]
pub struct NewPrompt {
    pub title: String,
    pub body: String,
    pub language: Option<String>,
    pub model_hint: Option<String>,
    pub metadata: String,
}

/// The changes to a stored prompt; a field that is `None` stays as it is.
#[derive(Debug, Clone)]
pub struct UpdatePrompt {
    pub title: Option<String>,
    pub body: Option<String>,
    pub language: Option<Option<String>>,
    pub model_hint: Option<Option<String>>,
    pub metadata: Option<String>,
}

/// A stored analysis of a prompt.
#[derive(Debug, Clone)]
pub struct Analysis {
    pub id: String,
    pub prompt_id: String,
    pub summary: String,
    pub tags: Vec<String>,
    pub classification: String,
    pub qwen_model: Option<String>,
    pub created_at: String,
}

/// An analysis that is to be stored.
#[derive(Debug, Clone)]
pub struct NewAnalysis {
    pub prompt_id: String,
    pub summary: String,
    pub tags: Vec<String>,
    pub classification: String,
    pub qwen_model: Option<String>,
}

/// A stored attachment of a prompt.
#[derive(Debug, Clone)]
pub struct Attachment {
    pub id: String,
    pub prompt_id: String,
    pub filename: String,
    pub bytes: Vec<u8>,
}

/// An attachment that is to be stored.
#[derive(Debug, Clone)]
pub struct NewAttachment {
    pub prompt_id: String,
    pub filename: String,
    pub bytes: Vec<u8>,
}

/// The JSON text of the value null.
pub open spec fn json_null() -> Seq<char> {
    "null"@
}

impl NewPrompt {
    /// A prompt of the given title and body, without language or model
    /// hint, and with null for its metadata.
    pub fn new(title: &str, body: &str) -> (prompt: Self)
        ensures
            prompt.title@ == title@,
            prompt.body@ == body@,
            prompt.language is None,
            prompt.model_hint is None,
            prompt.metadata@ == json_null(),
    {
        NewPrompt {
            title: title.to_owned(),
            body: body.to_owned(),
            language: None,
            model_hint: None,
            metadata: "null".to_owned(),
        }
    }

    /// The stored prompt that this one becomes under the given identifier at
    /// the given time.
    pub fn stored(self, id: String, now: String) -> (prompt: Prompt)
        ensures
            prompt.id == id,
            prompt.title == self.title,
            prompt.body == self.body,
            prompt.language == self.language,
            prompt.model_hint == self.model_hint,
            prompt.metadata == self.metadata,
            prompt.created_at@ == now@,
            prompt.updated_at@ == now@,
    {
        let created_at = now.clone();
        Prompt {
            id,
            title: self.title,
            body: self.body,
            language: self.language,
            model_hint: self.model_hint,
            metadata: self.metadata,
            created_at,
            updated_at: now,
        }
    }
}

impl NewAnalysis {
    /// The tags as a JSON list of strings in compact form, as the store
    /// keeps them.
    pub fn tags_json(&self) -> (text: Result<String, String>)
        ensures
            result_text(text) == json_of_list(texts(self.tags@)),
    {
        print_list(&self.tags)
    }
}

impl Default for UpdatePrompt {
    /// The change that changes nothing.
    fn default() -> (changes: Self)
        ensures
            changes.title is None,
            changes.body is None,
            changes.language is None,
            changes.model_hint is None,
            changes.metadata is None,
    {
        UpdatePrompt { title: None, body: None, language: None, model_hint: None, metadata: None }
    }
}

impl UpdatePrompt {
    /// The prompt that `existing` becomes by these changes at the time
    /// `now`: every field that the changes name is replaced, the time of the
    /// last update is `now`, and the rest stays.
    pub fn apply(self, existing: Prompt, now: String) -> (updated: Prompt)
        ensures
            updated.id == existing.id,
            updated.created_at == existing.created_at,
            updated.updated_at == now,
            updated.title == match self.title {
                Some(title) => title,
                None => existing.title,
            },
            updated.body == match self.body {
                Some(body) => body,
                None => existing.body,
            },
            updated.language == match self.language {
                Some(language) => language,
                None => existing.language,
            },
            updated.model_hint == match self.model_hint {
                Some(model_hint) => model_hint,
                None => existing.model_hint,
            },
            updated.metadata == match self.metadata {
                Some(metadata) => metadata,
                None => existing.metadata,
            },
    {
        let mut updated = existing;
        if let Some(title) = self.title {
            updated.title = title;
        }
        if let Some(body) = self.body {
            updated.body = body;
        }
        if let Some(language) = self.language {
            updated.language = language;
        }
        if let Some(model_hint) = self.model_hint {
            updated.model_hint = model_hint;
        }
        if let Some(metadata) = self.metadata {
            updated.metadata = metadata;
        }
        updated.updated_at = now;
        updated
    }
}

} // verus!

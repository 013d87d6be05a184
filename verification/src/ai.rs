//! Content blocks of model responses: plain data carried between the
//! agent loop and the model client.

use vstd::prelude::*;

verus! {

/// A block of response content.
#[derive(Debug)]
pub enum ContentBlock {
    Text(TextBlock),
    Image(ImageBlock),
}

impl ContentBlock {
    /// A field-for-field copy.
    pub fn duplicate(&self) -> (r: ContentBlock)
        ensures
            r == *self,
    {
        match self {
            ContentBlock::Text(t) => ContentBlock::Text(TextBlock { text: t.text.clone() }),
            ContentBlock::Image(b) => ContentBlock::Image(
                ImageBlock {
                    source: ImageSource {
                        source_type: b.source.source_type.clone(),
                        media_type: b.source.media_type.clone(),
                        data: b.source.data.clone(),
                    },
                },
            ),
        }
    }
}

#[derive(Debug)]
pub struct TextBlock {
    pub text: String,
}

#[derive(Debug)]
pub struct ImageBlock {
    pub source: ImageSource,
}

/// An inline image: its encoding, media type, and encoded bytes.
#[derive(Debug)]
pub struct ImageSource {
    pub source_type: String,
    pub media_type: String,
    pub data: String,
}

/// A tool's response: plain text or a sequence of blocks.
#[derive(Debug)]
pub enum ToolResponse {
    Text(String),
    Blocks(Vec<ContentBlock>),
}

} // verus!

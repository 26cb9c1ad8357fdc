//! A single MIME database record: extension, content type and transfer
//! encoding, parsed from one whitespace-delimited dataset line.

use vstd::prelude::*;

use crate::text::lemma_tokens_nonempty;
use crate::text::tokenize;
use crate::text::tokens;
use crate::text::views_of;

verus! {

/// The mathematical value of an [`Info`]: its three fields as character
/// sequences.
pub struct InfoView {
    pub extension: Seq<char>,
    pub content_type: Seq<char>,
    pub encoding: Seq<char>,
}

/// MIME type information: a file extension (without the dot), a content
/// type in `type/subtype` form, and a transfer-encoding token.
#[derive(Debug, Clone, PartialEq)]
pub struct Info {
    /// File extension (without the dot).
    pub extension: String,
    /// MIME content type (e.g. `text/plain`).
    pub content_type: String,
    /// Transfer encoding (e.g. `8bit`, `base64`).
    pub encoding: String,
}

impl View for Info {
    type V = InfoView;

    open spec fn view(&self) -> InfoView {
        InfoView {
            extension: self.extension@,
            content_type: self.content_type@,
            encoding: self.encoding@,
        }
    }
}

/// The record described by a dataset line: its first three tokens, or
/// `None` when the line has fewer than three.
pub open spec fn parsed(line: Seq<char>) -> Option<InfoView> {
    let ts = tokens(line);
    if ts.len() >= 3 {
        Some(InfoView { extension: ts[0], content_type: ts[1], encoding: ts[2] })
    } else {
        None
    }
}

/// Whether an encoding token marks a binary (rather than text) format:
/// exactly the two tokens `base64` and `8bit` do.
pub open spec fn is_binary_encoding(encoding: Seq<char>) -> bool {
    encoding == "base64"@ || encoding == "8bit"@
}

impl Info {
    /// Parses one dataset line. The first three whitespace-delimited
    /// tokens become extension, content type and encoding; further tokens
    /// are ignored; a line with fewer than three tokens yields `None`.
    pub fn new(line: &str) -> (r: Option<Info>)
        ensures
            match parsed(line@) {
                Some(iv) => r matches Some(info) && info@ == iv,
                None => r is None,
            },
            r matches Some(info) ==> info@.extension.len() > 0 && info@.content_type.len() > 0
                && info@.encoding.len() > 0,
    {
        let parts = tokenize(line);
        if parts.len() >= 3 {
            let info = Info {
                extension: parts[0].clone(),
                content_type: parts[1].clone(),
                encoding: parts[2].clone(),
            };
            proof {
                lemma_tokens_nonempty(line@);
                assert(views_of(parts@)[0] == parts@[0]@);
                assert(views_of(parts@)[1] == parts@[1]@);
                assert(views_of(parts@)[2] == parts@[2]@);
            }
            Some(info)
        } else {
            None
        }
    }

    /// Whether this record's encoding marks a binary format.
    pub fn is_binary(&self) -> (r: bool)
        ensures
            r == is_binary_encoding(self@.encoding),
    {
        let base64: String = "base64".to_owned();
        let eight_bit: String = "8bit".to_owned();
        self.encoding == base64 || self.encoding == eight_bit
    }
}

/// The view of an optional record.
pub open spec fn opt_view<T: View>(o: Option<T>) -> Option<T::V> {
    match o {
        Some(t) => Some(t@),
        None => None,
    }
}

} // verus!

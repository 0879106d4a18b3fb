//! The values that link detection hands back, and their mathematical views.

use vstd::prelude::*;

use crate::text::byte_len;
use crate::text::text_at;
use crate::text::valid_range;

verus! {

/// The operating system whose path grammar applies to a line.
#[derive(Debug, Clone, Copy, PartialEq, Eq)]
pub enum OperatingSystem {
    Windows,
    Linux,
    Macintosh,
}

/// A piece of a line: the byte offset at which it starts, and its text.
#[derive(Clone, Debug, PartialEq, Eq)]
pub struct LinkPartialRange {
    pub index: usize,
    pub text: String,
}

/// A row and column annotation found behind a path.
#[derive(Clone, Debug, PartialEq, Eq)]
pub struct LinkSuffix {
    pub row: Option<u32>,
    pub col: Option<u32>,
    pub row_end: Option<u32>,
    pub col_end: Option<u32>,
    pub suffix: LinkPartialRange,
}

/// A path found in a line, with the quote in front of it and the annotation
/// behind it where there are any.
#[derive(Debug, PartialEq, Eq)]
pub struct ParsedLink {
    pub path: LinkPartialRange,
    pub prefix: Option<LinkPartialRange>,
    pub suffix: Option<LinkSuffix>,
}

/// View of a [`LinkPartialRange`].
pub struct SpanView {
    pub index: int,
    pub text: Seq<char>,
}

/// View of a [`LinkSuffix`].
pub struct SuffixView {
    pub row: Option<u32>,
    pub col: Option<u32>,
    pub row_end: Option<u32>,
    pub col_end: Option<u32>,
    pub suffix: SpanView,
}

/// View of a [`ParsedLink`].
pub struct LinkView {
    pub path: SpanView,
    pub prefix: Option<SpanView>,
    pub suffix: Option<SuffixView>,
}

impl SpanView {
    /// Offset of the first byte behind the span.
    pub open spec fn end(self) -> int {
        self.index + byte_len(self.text)
    }

    /// The span lies in `line` and its text is what `line` holds there.
    pub open spec fn lies_in(self, line: Seq<char>) -> bool {
        &&& valid_range(line, self.index, self.end())
        &&& self.text == text_at(line, self.index, self.end())
    }

    /// The span lies in a piece of a line that starts at offset `origin` of
    /// the line and holds `piece`, and its text is what the piece holds
    /// there.
    pub open spec fn lies_in_from(self, piece: Seq<char>, origin: int) -> bool {
        &&& valid_range(piece, self.index - origin, self.end() - origin)
        &&& self.text == text_at(piece, self.index - origin, self.end() - origin)
    }
}

impl View for LinkPartialRange {
    type V = SpanView;

    open spec fn view(&self) -> SpanView {
        SpanView { index: self.index as int, text: self.text@ }
    }
}

impl DeepView for LinkPartialRange {
    type V = SpanView;

    open spec fn deep_view(&self) -> SpanView {
        self@
    }
}

impl View for LinkSuffix {
    type V = SuffixView;

    open spec fn view(&self) -> SuffixView {
        SuffixView {
            row: self.row,
            col: self.col,
            row_end: self.row_end,
            col_end: self.col_end,
            suffix: self.suffix@,
        }
    }
}

impl DeepView for LinkSuffix {
    type V = SuffixView;

    open spec fn deep_view(&self) -> SuffixView {
        self@
    }
}

impl View for ParsedLink {
    type V = LinkView;

    open spec fn view(&self) -> LinkView {
        LinkView {
            path: self.path@,
            prefix: match self.prefix {
                Some(prefix) => Some(prefix@),
                None => None,
            },
            suffix: match self.suffix {
                Some(suffix) => Some(suffix@),
                None => None,
            },
        }
    }
}

impl DeepView for ParsedLink {
    type V = LinkView;

    open spec fn deep_view(&self) -> LinkView {
        self@
    }
}

} // verus!

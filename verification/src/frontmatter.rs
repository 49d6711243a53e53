//! Front matter: structured metadata embedded at the start of a page
//! document, between `---` marker lines. The scan that frames the metadata
//! block and finds the body offset is verified against a byte-level state
//! machine; the YAML payload itself is decoded by an outside crate.

use vstd::prelude::*;

verus! {

/// Why parsing front matter failed.
#[derive(Debug, Clone, Copy, PartialEq, Eq, Structural)]
pub enum Error {
    /// The document ended before the closing marker line.
    Eof,
    /// A marker line was malformed, or the document did not start with one.
    Malformed,
    /// The framed payload was not the expected YAML mapping.
    Yaml,
}

/// The metadata of a recognized page document.
#[derive(Debug, Clone, PartialEq, Eq)]
pub struct FrontMatter {
    pub title: String,
    pub date: String,
    pub tags: Vec<String>,
    pub template: Option<String>,
}

/// What the YAML decoder yields for a payload; it depends on the payload
/// bytes alone.
pub uninterp spec fn front_matter_of(payload: Seq<u8>) -> Option<FrontMatter>;

/// Relies on serde_yaml (`from_slice`, and `Value`'s `get`, `as_str` and
/// `as_sequence` accessors): reads the `title`, `date`, `tags` and `template`
/// entries of a YAML mapping; the result depends on the payload bytes alone.
/// The schema is strict: `title` and `date` must be strings, an absent
/// `tags` or `template` defaults, and a present entry of the wrong shape
/// (`tags` not a sequence of strings, `template` not a string) refuses the
/// whole document.
#[verifier::external_body]
fn decode_front_matter(payload: &[u8]) -> (r: Option<FrontMatter>)
    ensures
        r == front_matter_of(payload@),
{
    let doc: serde_yaml::Value = serde_yaml::from_slice(payload).ok()?;
    let title = doc.get("title")?.as_str()?.to_string();
    let date = doc.get("date")?.as_str()?.to_string();
    let empty = serde_yaml::Sequence::new();
    let list = match doc.get("tags") { Some(e) => e.as_sequence()?, None => &empty };
    let mut tags = Vec::new();
    for tag in list {
        tags.push(tag.as_str()?.to_string());
    }
    let template = match doc.get("template") { Some(e) => Some(e.as_str()?.to_string()), None => None };
    Some(FrontMatter { title, date, tags, template })
}

/// A state of the framing scan.
pub ghost enum FrameState {
    /// Skipping whitespace before the opening marker.
    Start,
    /// Inside the opening `---`, `count` dashes seen.
    OpenMarker { count: int },
    /// The opening marker is complete; a newline must follow.
    OpenNewline,
    /// Inside the metadata block, which began at byte `start`; `line_start`
    /// says whether the next byte begins a line.
    Body { start: int, line_start: bool },
    /// Inside the closing `---`, `count` dashes seen; the payload is
    /// `[pstart, pend)`.
    CloseMarker { count: int, pstart: int, pend: int },
    /// The closing marker is complete; a newline must follow.
    CloseNewline { pstart: int, pend: int },
}

/// What the framing scan yields.
pub ghost enum Framing {
    /// The payload is `[pstart, pend)` and the page body begins at `offset`.
    Found { pstart: int, pend: int, offset: int },
    /// The input ended before the closing marker line was complete.
    PrematureEnd,
    /// Some byte broke a marker line.
    Malformed,
}

/// The framing scan from position `i` in state `st`: one byte is consumed per
/// step, exactly as the parser reads the document.
pub open spec fn frame_from(s: Seq<u8>, i: int, st: FrameState) -> Framing
    decreases s.len() - i,
    when 0 <= i
{
    if i >= s.len() {
        Framing::PrematureEnd
    } else {
        let c = s[i];
        match st {
            FrameState::Start => {
                if c == 45 {
                    frame_from(s, i + 1, FrameState::OpenMarker { count: 1 })
                } else if c == 10 || c == 9 || c == 32 {
                    frame_from(s, i + 1, FrameState::Start)
                } else {
                    Framing::Malformed
                }
            },
            FrameState::OpenMarker { count } => {
                if c == 45 {
                    if count + 1 == 3 {
                        frame_from(s, i + 1, FrameState::OpenNewline)
                    } else {
                        frame_from(s, i + 1, FrameState::OpenMarker { count: count + 1 })
                    }
                } else {
                    Framing::Malformed
                }
            },
            FrameState::OpenNewline => {
                if c == 10 {
                    frame_from(s, i + 1, FrameState::Body { start: i + 1, line_start: true })
                } else {
                    Framing::Malformed
                }
            },
            FrameState::Body { start, line_start } => {
                if c == 45 && line_start {
                    frame_from(
                        s,
                        i + 1,
                        FrameState::CloseMarker { count: 1, pstart: start, pend: i },
                    )
                } else {
                    frame_from(s, i + 1, FrameState::Body { start, line_start: c == 10 })
                }
            },
            FrameState::CloseMarker { count, pstart, pend } => {
                if c == 45 {
                    if count + 1 == 3 {
                        frame_from(s, i + 1, FrameState::CloseNewline { pstart, pend })
                    } else {
                        frame_from(
                            s,
                            i + 1,
                            FrameState::CloseMarker { count: count + 1, pstart, pend },
                        )
                    }
                } else {
                    Framing::Malformed
                }
            },
            FrameState::CloseNewline { pstart, pend } => {
                if c == 10 {
                    Framing::Found { pstart, pend, offset: i + 1 }
                } else {
                    Framing::Malformed
                }
            },
        }
    }
}

/// The framing scan of a whole document.
pub open spec fn spec_frame(s: Seq<u8>) -> Framing {
    frame_from(s, 0, FrameState::Start)
}

/// The front matter and body offset of a page document, if the document
/// frames correctly and its payload decodes.
pub open spec fn spec_page_meta(s: Seq<u8>) -> Option<(FrontMatter, int)> {
    match spec_frame(s) {
        Framing::Found { pstart, pend, offset } => match front_matter_of(
            s.subrange(pstart, pend),
        ) {
            Some(fm) => Some((fm, offset)),
            None => None,
        },
        _ => None,
    }
}

/// Which error a document that yields no front matter is reported with.
pub open spec fn spec_parse_error(s: Seq<u8>) -> Error {
    match spec_frame(s) {
        Framing::Found { .. } => Error::Yaml,
        Framing::PrematureEnd => Error::Eof,
        Framing::Malformed => Error::Malformed,
    }
}

/// The scan's exec state; its `usize` positions mirror a `FrameState`.
#[derive(Clone, Copy)]
enum ScanState {
    Start,
    OpenMarker { count: u8 },
    OpenNewline,
    Body { start: usize, line_start: bool },
    CloseMarker { count: u8, pstart: usize, pend: usize },
    CloseNewline { pstart: usize, pend: usize },
}

/// The `FrameState` that a `ScanState` stands for.
spec fn scan_view(st: ScanState) -> FrameState {
    match st {
        ScanState::Start => FrameState::Start,
        ScanState::OpenMarker { count } => FrameState::OpenMarker { count: count as int },
        ScanState::OpenNewline => FrameState::OpenNewline,
        ScanState::Body { start, line_start } => FrameState::Body {
            start: start as int,
            line_start,
        },
        ScanState::CloseMarker { count, pstart, pend } => FrameState::CloseMarker {
            count: count as int,
            pstart: pstart as int,
            pend: pend as int,
        },
        ScanState::CloseNewline { pstart, pend } => FrameState::CloseNewline {
            pstart: pstart as int,
            pend: pend as int,
        },
    }
}

/// Bounds that the scan keeps: counts stay below three and every recorded
/// position lies at or before the cursor.
spec fn scan_wf(st: ScanState, i: int) -> bool {
    match st {
        ScanState::Start => true,
        ScanState::OpenMarker { count } => 1 <= count <= 2,
        ScanState::OpenNewline => true,
        ScanState::Body { start, line_start } => start <= i,
        ScanState::CloseMarker { count, pstart, pend } => 1 <= count <= 2 && pstart <= pend
            <= i,
        ScanState::CloseNewline { pstart, pend } => pstart <= pend <= i,
    }
}

impl FrontMatter {
    /// Parse the front matter at the head of `input`, returning it together
    /// with the byte offset at which the page body begins.
    ///
    /// The document must open with a `---` line, whose block runs to the next
    /// `---` line; the block decodes as a YAML mapping with at least `title`
    /// and `date`. Exactly the documents the framing scan accepts and the
    /// decoder takes are parsed; all others are refused with the error the
    /// scan assigns.
    pub fn parse(input: &[u8]) -> (r: Result<(FrontMatter, usize), Error>)
        ensures
            r matches Ok(p) ==> spec_page_meta(input@) == Some((p.0, p.1 as int)),
            spec_page_meta(input@) is Some ==> r is Ok,
            r matches Err(e) ==> spec_page_meta(input@) is None && e == spec_parse_error(input@),
    {
        let n = input.len();
        let mut st = ScanState::Start;
        let mut i: usize = 0;
        while i < n
            invariant
                i <= n,
                n == input@.len(),
                scan_wf(st, i as int),
                frame_from(input@, i as int, scan_view(st)) == spec_frame(input@),
            decreases n - i,
        {
            let c = input[i];
            match st {
                ScanState::Start => {
                    if c == 45 {
                        st = ScanState::OpenMarker { count: 1 };
                    } else if c == 10 || c == 9 || c == 32 {
                        // stay
                    } else {
                        return Err(Error::Malformed);
                    }
                },
                ScanState::OpenMarker { count } => {
                    if c == 45 {
                        if count + 1 == 3 {
                            st = ScanState::OpenNewline;
                        } else {
                            st = ScanState::OpenMarker { count: count + 1 };
                        }
                    } else {
                        return Err(Error::Malformed);
                    }
                },
                ScanState::OpenNewline => {
                    if c == 10 {
                        st = ScanState::Body { start: i + 1, line_start: true };
                    } else {
                        return Err(Error::Malformed);
                    }
                },
                ScanState::Body { start, line_start } => {
                    if c == 45 && line_start {
                        st = ScanState::CloseMarker { count: 1, pstart: start, pend: i };
                    } else {
                        st = ScanState::Body { start, line_start: c == 10 };
                    }
                },
                ScanState::CloseMarker { count, pstart, pend } => {
                    if c == 45 {
                        if count + 1 == 3 {
                            st = ScanState::CloseNewline { pstart, pend };
                        } else {
                            st = ScanState::CloseMarker { count: count + 1, pstart, pend };
                        }
                    } else {
                        return Err(Error::Malformed);
                    }
                },
                ScanState::CloseNewline { pstart, pend } => {
                    if c == 10 {
                        let payload = vstd::slice::slice_subrange(input, pstart, pend);
                        let offset = i + 1;
                        return match decode_front_matter(payload) {
                            Some(fm) => Ok((fm, offset)),
                            None => Err(Error::Yaml),
                        };
                    } else {
                        return Err(Error::Malformed);
                    }
                },
            }
            i += 1;
        }
        Err(Error::Eof)
    }
}

} // verus!

//! One snapshot of what the clipboard held.

use crate::clipboard_files::ClipboardError;
use crate::thumbnail::{base64_standard, data_uri_prefix, encodable, thumbnail_uri};
use vstd::prelude::*;

verus! {

/// What kind of payload a snapshot carries.
#[derive(Clone, Copy, Debug, PartialEq, Eq, Structural)]
pub enum Kind {
    Text,
    Paths,
    Image,
}

/// The part of a snapshot that decides whether two snapshots are the same
/// clipboard content. An image is identified by its thumbnail alone.
pub enum Payload {
    Paths(Seq<Seq<char>>),
    Image(Seq<char>),
    Text(Seq<char>),
}

/// The mathematical value of a [`Contents`].
pub enum ContentsView {
    FilePath { paths: Seq<Seq<char>> },
    Image { thumbnail: Seq<char>, rgba: Seq<u8>, width: u32, height: u32 },
    Text { text: Seq<char> },
}

impl ContentsView {
    pub open spec fn payload(self) -> Payload {
        match self {
            ContentsView::FilePath { paths } => Payload::Paths(paths),
            ContentsView::Image { thumbnail, .. } => Payload::Image(thumbnail),
            ContentsView::Text { text } => Payload::Text(text),
        }
    }

    pub open spec fn kind(self) -> Kind {
        match self {
            ContentsView::FilePath { .. } => Kind::Paths,
            ContentsView::Image { .. } => Kind::Image,
            ContentsView::Text { .. } => Kind::Text,
        }
    }
}

/// An immutable snapshot of one clipboard payload.
#[derive(Debug)]
pub enum Contents {
    /// A list of file paths, in clipboard order.
    FilePath { paths: Vec<String> },
    /// Raw RGBA pixels with their dimensions, and the thumbnail shown for them.
    Image { thumbnail: String, rgba: Vec<u8>, width: u32, height: u32 },
    /// Plain text.
    Text { text: String },
}

impl View for Contents {
    type V = ContentsView;

    open spec fn view(&self) -> ContentsView {
        match self {
            Contents::FilePath { paths } => ContentsView::FilePath { paths: paths.deep_view() },
            Contents::Image { thumbnail, rgba, width, height } => ContentsView::Image {
                thumbnail: thumbnail@,
                rgba: rgba@,
                width: *width,
                height: *height,
            },
            Contents::Text { text } => ContentsView::Text { text: text@ },
        }
    }
}

impl DeepView for Contents {
    type V = ContentsView;

    open spec fn deep_view(&self) -> ContentsView {
        self@
    }
}

/// What the picker shows of a snapshot: its text, its paths, or the
/// thumbnail of its image.
#[derive(Debug)]
pub enum Shown {
    Text(String),
    Paths(Vec<String>),
    Image(String),
}

impl View for Shown {
    type V = Payload;

    open spec fn view(&self) -> Payload {
        match self {
            Shown::Text(text) => Payload::Text(text@),
            Shown::Paths(paths) => Payload::Paths(paths.deep_view()),
            Shown::Image(thumbnail) => Payload::Image(thumbnail@),
        }
    }
}

impl Shown {
    /// The kind of snapshot shown.
    pub fn kind(&self) -> (k: Kind)
        ensures
            k == match self@ {
                Payload::Text(_) => Kind::Text,
                Payload::Paths(_) => Kind::Paths,
                Payload::Image(_) => Kind::Image,
            },
    {
        match self {
            Shown::Text(_) => Kind::Text,
            Shown::Paths(_) => Kind::Paths,
            Shown::Image(_) => Kind::Image,
        }
    }
}

impl Kind {
    /// The name of the kind in messages to the picker and in saved state.
    pub fn name(&self) -> (name: &'static str)
        ensures
            name@ == match self {
                Kind::Text => "text"@,
                Kind::Paths => "paths"@,
                Kind::Image => "image"@,
            },
    {
        match self {
            Kind::Text => "text",
            Kind::Paths => "paths",
            Kind::Image => "image",
        }
    }
}

/// Whether two strings hold the same characters.
pub fn same_string(a: &String, b: &String) -> (same: bool)
    ensures
        same == (a@ == b@),
{
    *a == *b
}

/// Whether two lists hold the same strings in the same order.
pub fn same_strings(a: &Vec<String>, b: &Vec<String>) -> (same: bool)
    ensures
        same == (a.deep_view() == b.deep_view()),
{
    if a.len() != b.len() {
        assert(a.deep_view().len() != b.deep_view().len());
        return false;
    }
    let mut i: usize = 0;
    while i < a.len()
        invariant
            i <= a.len(),
            a.len() == b.len(),
            forall|k: int| 0 <= k < i ==> a[k]@ == b[k]@,
        decreases a.len() - i,
    {
        if !same_string(&a[i], &b[i]) {
            assert(a.deep_view()[i as int] != b.deep_view()[i as int]);
            return false;
        }
        i += 1;
    }
    assert(a.deep_view() =~= b.deep_view());
    true
}

/// A copy of a list of strings.
pub fn copy_strings(a: &Vec<String>) -> (out: Vec<String>)
    ensures
        out.deep_view() == a.deep_view(),
{
    let mut out: Vec<String> = Vec::new();
    let mut i: usize = 0;
    while i < a.len()
        invariant
            i <= a.len(),
            out.len() == i,
            forall|k: int| 0 <= k < i ==> out[k]@ == a[k]@,
        decreases a.len() - i,
    {
        out.push(a[i].clone());
        i += 1;
    }
    assert(out.deep_view() =~= a.deep_view());
    out
}

impl Contents {
    /// The kind of payload held.
    pub fn kind(&self) -> (k: Kind)
        ensures
            k == self@.kind(),
    {
        match self {
            Contents::FilePath { .. } => Kind::Paths,
            Contents::Image { .. } => Kind::Image,
            Contents::Text { .. } => Kind::Text,
        }
    }

    /// What the picker shows of this snapshot.
    pub fn shown(&self) -> (out: Shown)
        ensures
            out@ == self@.payload(),
    {
        match self {
            Contents::FilePath { paths } => Shown::Paths(copy_strings(paths)),
            Contents::Image { thumbnail, .. } => Shown::Image(thumbnail.clone()),
            Contents::Text { text } => Shown::Text(text.clone()),
        }
    }

    /// Whether `self` and `other` are the same clipboard content: equal
    /// text, equal path lists, or images with equal thumbnails.
    pub fn same_payload(&self, other: &Contents) -> (same: bool)
        ensures
            same == (self@.payload() == other@.payload()),
    {
        match (self, other) {
            (Contents::FilePath { paths: ours }, Contents::FilePath { paths: theirs }) => {
                same_strings(ours, theirs)
            },
            (Contents::Image { thumbnail: ours, .. }, Contents::Image { thumbnail: theirs, .. }) => {
                same_string(ours, theirs)
            },
            (Contents::Text { text: ours }, Contents::Text { text: theirs }) => same_string(ours, theirs),
            _ => false,
        }
    }
}

/// The places a snapshot can be read from, in the order in which they are
/// tried: file paths first, then an image, then text.
#[derive(Clone, Copy, Debug, PartialEq, Eq, Structural)]
pub enum Source {
    Files,
    Image,
    Text,
}

/// An image as read from the clipboard, with the PNG that was made of it
/// for the picker where one could be made.
#[derive(Debug)]
pub struct ImageRead {
    pub rgba: Vec<u8>,
    pub width: u32,
    pub height: u32,
    pub png: Option<Vec<u8>>,
}

/// What came of one attempt to read the clipboard.
#[derive(Debug)]
pub enum Reading {
    /// The file paths, or why there are none.
    Files(Result<Vec<String>, ClipboardError>),
    /// The image, if one could be read.
    Image(Option<ImageRead>),
    /// The text, if it could be read.
    Text(Option<String>),
}

/// What to do after an attempt to read the clipboard.
#[derive(Debug)]
pub enum Step {
    /// The clipboard holds this snapshot.
    Take(Contents),
    /// Nothing came of the attempt; read from this place next.
    Try(Source),
    /// Nothing on the clipboard can be read.
    GiveUp,
}

impl Source {
    /// The place that is tried first.
    pub fn first() -> (source: Source)
        ensures
            source == Source::Files,
    {
        Source::Files
    }
}

impl ImageRead {
    /// Whether the image can be shown: a PNG was made of it, and the PNG is
    /// not too large for a thumbnail.
    pub open spec fn showable(&self) -> bool {
        self.png matches Some(png) && encodable(png@.len())
    }

    /// The snapshot that a showable image becomes.
    pub open spec fn snapshot(&self) -> ContentsView {
        ContentsView::Image {
            thumbnail: data_uri_prefix() + base64_standard(self.png->0@),
            rgba: self.rgba@,
            width: self.width,
            height: self.height,
        }
    }
}

impl Contents {
    /// Decides what an attempt to read the clipboard leads to. File paths,
    /// a showable image or text are taken as the snapshot. Without file
    /// paths, for whatever reason, an image is tried next; without a
    /// showable image, text; and without text nothing is left to try.
    pub fn try_from_clipboard(reading: Reading) -> (step: Step)
        ensures
            match reading {
                Reading::Files(Ok(paths)) => step matches Step::Take(contents) && contents@
                    == (ContentsView::FilePath { paths: paths.deep_view() }),
                Reading::Files(Err(_)) => step == Step::Try(Source::Image),
                Reading::Image(Some(image)) => if image.showable() {
                    step matches Step::Take(contents) && contents@ == image.snapshot()
                } else {
                    step == Step::Try(Source::Text)
                },
                Reading::Image(None) => step == Step::Try(Source::Text),
                Reading::Text(Some(text)) => step matches Step::Take(contents) && contents@
                    == (ContentsView::Text { text: text@ }),
                Reading::Text(None) => step == Step::GiveUp,
            },
    {
        match reading {
            Reading::Files(Ok(paths)) => Step::Take(Contents::FilePath { paths }),
            Reading::Files(Err(_)) => Step::Try(Source::Image),
            Reading::Image(Some(image)) => {
                let ImageRead { rgba, width, height, png } = image;
                match png {
                    Some(encoded) => match thumbnail_uri(&encoded) {
                        Some(thumbnail) => Step::Take(
                            Contents::Image { thumbnail, rgba, width, height },
                        ),
                        None => Step::Try(Source::Text),
                    },
                    None => Step::Try(Source::Text),
                }
            },
            Reading::Image(None) => Step::Try(Source::Text),
            Reading::Text(Some(text)) => Step::Take(Contents::Text { text }),
            Reading::Text(None) => Step::GiveUp,
        }
    }
}

impl Clone for Contents {
    fn clone(&self) -> (out: Self)
        ensures
            out@ == self@,
    {
        match self {
            Contents::FilePath { paths } => Contents::FilePath { paths: copy_strings(paths) },
            Contents::Image { thumbnail, rgba, width, height } => {
                let pixels = rgba.clone();
                assert(pixels@ =~= rgba@);
                Contents::Image {
                    thumbnail: thumbnail.clone(),
                    rgba: pixels,
                    width: *width,
                    height: *height,
                }
            },
            Contents::Text { text } => Contents::Text { text: text.clone() },
        }
    }
}

} // verus!

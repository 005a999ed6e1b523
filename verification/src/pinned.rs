//! The saved form of the pinned snapshots: a list of records, one per
//! snapshot, with the pixels of each image in a file of its own.

use crate::contents::{copy_strings, same_string, Contents, ContentsView};
use vstd::prelude::*;

verus! {

/// A value of the saved state as far as the reader looks into it.
#[derive(Debug)]
pub enum Json {
    /// A value that the reader never looks into: null, a truth value, or a
    /// number that is no unsigned integer of 64 bits.
    Other,
    /// An unsigned integer.
    Number(u64),
    /// A string.
    Text(String),
    /// A list of values.
    Array(Vec<Json>),
    /// Named values; no name occurs twice.
    Object(Vec<(String, Json)>),
}

/// The mathematical value of a [`Record`].
pub enum RecordView {
    Text { text: Seq<char> },
    Paths { paths: Seq<Seq<char>> },
    Image { file: Seq<char>, width: u32, height: u32 },
}

/// One saved snapshot. An image is saved as the name of the file that
/// holds its pixels, with its width and height.
#[derive(Debug)]
pub enum Record {
    Text { text: String },
    Paths { paths: Vec<String> },
    Image { file: String, width: u32, height: u32 },
}

impl View for Record {
    type V = RecordView;

    open spec fn view(&self) -> RecordView {
        match self {
            Record::Text { text } => RecordView::Text { text: text@ },
            Record::Paths { paths } => RecordView::Paths { paths: paths.deep_view() },
            Record::Image { file, width, height } => RecordView::Image {
                file: file@,
                width: *width,
                height: *height,
            },
        }
    }
}

impl DeepView for Record {
    type V = RecordView;

    open spec fn deep_view(&self) -> RecordView {
        self@
    }
}

/// The mathematical value of an [`ImageFile`].
pub struct ImageFileView {
    pub name: Seq<char>,
    pub rgba: Seq<u8>,
}

/// The pixels of one saved image and the name of the file they go to.
#[derive(Debug)]
pub struct ImageFile {
    pub name: String,
    pub rgba: Vec<u8>,
}

impl View for ImageFile {
    type V = ImageFileView;

    open spec fn view(&self) -> ImageFileView {
        ImageFileView { name: self.name@, rgba: self.rgba@ }
    }
}

/// What is written when the pinned snapshots are saved.
#[derive(Debug)]
pub struct Saved {
    /// One record per snapshot, in the order of the pinned list.
    pub records: Vec<Record>,
    /// One file per image, in the order of the images.
    pub images: Vec<ImageFile>,
}

/// Why saved state could not be read.
#[derive(Clone, Copy, Debug, PartialEq, Eq, Structural)]
pub enum LoadError {
    NotArray,
    ItemNotObject,
    NoType,
    TypeNotString,
    NoContent,
    TextNotString,
    PathsNotArray,
    PathNotString,
    ImageNotObject,
    NoFile,
    FileNotString,
    NoHeight,
    HeightNotNumber,
    NoWidth,
    WidthNotNumber,
    UnknownType,
}

impl LoadError {
    /// The error as a line of text.
    pub fn message(&self) -> (text: &'static str)
        ensures
            text@ == match self {
                LoadError::NotArray => "Value for pinned key was not an array"@,
                LoadError::ItemNotObject => "item in pinned array was not object"@,
                LoadError::NoType => "pinned array object did not have 'type' key"@,
                LoadError::TypeNotString => "value for 'type' key in pinned array object was not a string"@,
                LoadError::NoContent => "pinned array object did not have 'content' key"@,
                LoadError::TextNotString => "Value for 'content' was not a string for 'text' item"@,
                LoadError::PathsNotArray => "Value for 'content' was not an array for 'paths' item"@,
                LoadError::PathNotString => "Not all items in paths array were strings"@,
                LoadError::ImageNotObject => "Value for 'content' was not an object for 'image' item"@,
                LoadError::NoFile => "Image data object did not have 'file' key"@,
                LoadError::FileNotString => "Value for 'file' key for image data object was not a string"@,
                LoadError::NoHeight => "Image data object did not have a 'height' key"@,
                LoadError::HeightNotNumber => "Value for 'height' in image data object could not be cast as a u64"@,
                LoadError::NoWidth => "Image data object did not have a 'width' key"@,
                LoadError::WidthNotNumber => "Value for 'width' in image data object could not be cast as a u64"@,
                LoadError::UnknownType => "type for pinned object not 'image', 'paths', or 'text'"@,
            },
    {
        match self {
            LoadError::NotArray => "Value for pinned key was not an array",
            LoadError::ItemNotObject => "item in pinned array was not object",
            LoadError::NoType => "pinned array object did not have 'type' key",
            LoadError::TypeNotString => "value for 'type' key in pinned array object was not a string",
            LoadError::NoContent => "pinned array object did not have 'content' key",
            LoadError::TextNotString => "Value for 'content' was not a string for 'text' item",
            LoadError::PathsNotArray => "Value for 'content' was not an array for 'paths' item",
            LoadError::PathNotString => "Not all items in paths array were strings",
            LoadError::ImageNotObject => "Value for 'content' was not an object for 'image' item",
            LoadError::NoFile => "Image data object did not have 'file' key",
            LoadError::FileNotString => "Value for 'file' key for image data object was not a string",
            LoadError::NoHeight => "Image data object did not have a 'height' key",
            LoadError::HeightNotNumber => "Value for 'height' in image data object could not be cast as a u64",
            LoadError::NoWidth => "Image data object did not have a 'width' key",
            LoadError::WidthNotNumber => "Value for 'width' in image data object could not be cast as a u64",
            LoadError::UnknownType => "type for pinned object not 'image', 'paths', or 'text'",
        }
    }
}

/// The character of a decimal digit.
pub open spec fn digit(d: nat) -> char {
    if d == 0 {
        '0'
    } else if d == 1 {
        '1'
    } else if d == 2 {
        '2'
    } else if d == 3 {
        '3'
    } else if d == 4 {
        '4'
    } else if d == 5 {
        '5'
    } else if d == 6 {
        '6'
    } else if d == 7 {
        '7'
    } else if d == 8 {
        '8'
    } else {
        '9'
    }
}

/// `n` in decimal, without leading zeros.
pub open spec fn decimal(n: nat) -> Seq<char>
    decreases n,
{
    if n < 10 {
        seq![digit(n)]
    } else {
        decimal(n / 10).push(digit(n % 10))
    }
}

fn digit_text(d: u64) -> (text: &'static str)
    requires
        d < 10,
    ensures
        text@ == seq![digit(d as nat)],
{
    proof {
        reveal_strlit("0");
        reveal_strlit("1");
        reveal_strlit("2");
        reveal_strlit("3");
        reveal_strlit("4");
        reveal_strlit("5");
        reveal_strlit("6");
        reveal_strlit("7");
        reveal_strlit("8");
        reveal_strlit("9");
    }
    let text = if d == 0 {
        "0"
    } else if d == 1 {
        "1"
    } else if d == 2 {
        "2"
    } else if d == 3 {
        "3"
    } else if d == 4 {
        "4"
    } else if d == 5 {
        "5"
    } else if d == 6 {
        "6"
    } else if d == 7 {
        "7"
    } else if d == 8 {
        "8"
    } else {
        "9"
    };
    assert(text@ =~= seq![digit(d as nat)]);
    text
}

/// `n` written in decimal.
pub fn file_name(n: u64) -> (name: String)
    ensures
        name@ == decimal(n as nat),
    decreases n,
{
    if n < 10 {
        String::from_str(digit_text(n))
    } else {
        let mut name = file_name(n / 10);
        name.append(digit_text(n % 10));
        assert(name@ =~= decimal(n as nat));
        name
    }
}

/// How many of the first `n` snapshots are images.
pub open spec fn images_among(contents: Seq<ContentsView>, n: int) -> nat
    decreases n,
{
    if n <= 0 {
        0
    } else {
        images_among(contents, n - 1) + if contents[n - 1] is Image {
            1nat
        } else {
            0nat
        }
    }
}

/// The record that saves a snapshot. `number` is the place of the
/// snapshot among the images saved so far, itself included, and names
/// the file of its pixels.
pub open spec fn record_of(contents: ContentsView, number: nat) -> RecordView {
    match contents {
        ContentsView::Text { text } => RecordView::Text { text },
        ContentsView::FilePath { paths } => RecordView::Paths { paths },
        ContentsView::Image { width, height, .. } => RecordView::Image {
            file: decimal(number),
            width,
            height,
        },
    }
}

/// What to write for the pinned snapshots `contents`: a record for each,
/// in order, and for each image a file with its pixels. The files are
/// named by counting the images from 1.
pub fn store_pinned(contents: &Vec<Contents>) -> (saved: Saved)
    ensures
        saved.records@.len() == contents@.len(),
        forall|i: int|
            0 <= i < contents@.len() ==> (#[trigger] saved.records@[i])@ == record_of(
                contents@[i]@,
                images_among(contents.deep_view(), i + 1),
            ),
        saved.images@.len() == images_among(contents.deep_view(), contents@.len() as int),
        forall|i: int|
            0 <= i < contents@.len() && (#[trigger] contents@[i])@ is Image ==> saved.images@[images_among(
                contents.deep_view(),
                i,
            ) as int]@ == (ImageFileView {
                name: decimal(images_among(contents.deep_view(), i + 1)),
                rgba: contents@[i]@->rgba,
            }),
{
    let ghost all = contents.deep_view();
    let mut records: Vec<Record> = Vec::new();
    let mut images: Vec<ImageFile> = Vec::new();
    let mut count: u64 = 0;
    let mut i: usize = 0;
    while i < contents.len()
        invariant
            i <= contents@.len(),
            all == contents.deep_view(),
            count == images_among(all, i as int),
            count <= i,
            records@.len() == i,
            images@.len() == count,
            forall|k: int|
                0 <= k < i ==> (#[trigger] records@[k])@ == record_of(
                    contents@[k]@,
                    images_among(all, k + 1),
                ),
            forall|k: int|
                0 <= k < i && (#[trigger] contents@[k])@ is Image ==> images@[images_among(
                    all,
                    k,
                ) as int]@ == (ImageFileView {
                    name: decimal(images_among(all, k + 1)),
                    rgba: contents@[k]@->rgba,
                }),
        decreases contents@.len() - i,
    {
        proof {
            assert(all[i as int] == contents@[i as int]@);
            assert forall|k: int| 0 <= k < i implies images_among(all, k) < count || !(
            contents@[k]@ is Image) by {
                lemma_images_among_monotone(all, k + 1, i as int);
            }
        }
        match &contents[i] {
            Contents::Text { text } => {
                records.push(Record::Text { text: text.clone() });
            },
            Contents::FilePath { paths } => {
                records.push(Record::Paths { paths: copy_strings(paths) });
            },
            Contents::Image { rgba, width, height, .. } => {
                count = count + 1;
                let pixels = rgba.clone();
                assert(pixels@ =~= rgba@);
                images.push(ImageFile { name: file_name(count), rgba: pixels });
                records.push(Record::Image { file: file_name(count), width: *width, height: *height });
            },
        }
        i += 1;
    }
    Saved { records, images }
}

proof fn lemma_images_among_monotone(contents: Seq<ContentsView>, a: int, b: int)
    requires
        0 <= a <= b,
    ensures
        images_among(contents, a) <= images_among(contents, b),
    decreases b - a,
{
    if a < b {
        lemma_images_among_monotone(contents, a, b - 1);
    }
}

/// The value named `key` among `pairs`, if there is one.
pub open spec fn lookup(pairs: Seq<(String, Json)>, key: Seq<char>) -> Option<Json>
    decreases pairs.len(),
{
    if pairs.len() == 0 {
        None
    } else if pairs[0].0@ == key {
        Some(pairs[0].1)
    } else {
        lookup(pairs.drop_first(), key)
    }
}

/// Whether every value of `items` is a string.
pub open spec fn all_text(items: Seq<Json>) -> bool {
    forall|i: int| 0 <= i < items.len() ==> #[trigger] items[i] is Text
}

/// The strings of `items`.
pub open spec fn texts(items: Seq<Json>) -> Seq<Seq<char>> {
    Seq::new(items.len(), |i: int| items[i]->Text_0@)
}

/// A number of the saved state as a width or a height: its low 32 bits.
pub open spec fn dimension(n: u64) -> u32 {
    (n % 0x1_0000_0000) as u32
}

/// What the content of a record of type `text` stands for.
pub open spec fn decoded_text(content: Json) -> Result<RecordView, LoadError> {
    match content {
        Json::Text(text) => Ok(RecordView::Text { text: text@ }),
        _ => Err(LoadError::TextNotString),
    }
}

/// What the content of a record of type `paths` stands for.
pub open spec fn decoded_paths(content: Json) -> Result<RecordView, LoadError> {
    match content {
        Json::Array(items) => if all_text(items@) {
            Ok(RecordView::Paths { paths: texts(items@) })
        } else {
            Err(LoadError::PathNotString)
        },
        _ => Err(LoadError::PathsNotArray),
    }
}

/// What the content of a record of type `image` stands for.
pub open spec fn decoded_image(content: Json) -> Result<RecordView, LoadError> {
    match content {
        Json::Object(pairs) => match lookup(pairs@, "file"@) {
            None => Err(LoadError::NoFile),
            Some(Json::Text(file)) => match lookup(pairs@, "height"@) {
                None => Err(LoadError::NoHeight),
                Some(Json::Number(height)) => match lookup(pairs@, "width"@) {
                    None => Err(LoadError::NoWidth),
                    Some(Json::Number(width)) => Ok(
                        RecordView::Image {
                            file: file@,
                            width: dimension(width),
                            height: dimension(height),
                        },
                    ),
                    Some(_) => Err(LoadError::WidthNotNumber),
                },
                Some(_) => Err(LoadError::HeightNotNumber),
            },
            Some(_) => Err(LoadError::FileNotString),
        },
        _ => Err(LoadError::ImageNotObject),
    }
}

/// What one item of the saved list stands for: an object with a `type`
/// of `text`, `paths` or `image` and a `content` of the matching form.
/// Where several things are wrong the first one looked at is reported: the
/// item, its type, its content, and then the content's parts.
pub open spec fn decoded(item: Json) -> Result<RecordView, LoadError> {
    match item {
        Json::Object(pairs) => match lookup(pairs@, "type"@) {
            None => Err(LoadError::NoType),
            Some(Json::Text(kind)) => match lookup(pairs@, "content"@) {
                None => Err(LoadError::NoContent),
                Some(content) => if kind@ == "text"@ {
                    decoded_text(content)
                } else if kind@ == "paths"@ {
                    decoded_paths(content)
                } else if kind@ == "image"@ {
                    decoded_image(content)
                } else {
                    Err(LoadError::UnknownType)
                },
            },
            Some(_) => Err(LoadError::TypeNotString),
        },
        _ => Err(LoadError::ItemNotObject),
    }
}

/// What a saved list stands for: the records of its items, or the error
/// of the first item that is wrong.
pub open spec fn decoded_all(items: Seq<Json>) -> Result<Seq<RecordView>, LoadError>
    decreases items.len(),
{
    if items.len() == 0 {
        Ok(Seq::empty())
    } else {
        match decoded_all(items.drop_last()) {
            Err(e) => Err(e),
            Ok(records) => match decoded(items.last()) {
                Ok(record) => Ok(records.push(record)),
                Err(e) => Err(e),
            },
        }
    }
}

/// What the saved state stands for. State that was never saved stands
/// for no snapshots; saved state must be a list.
pub open spec fn decoded_pinned(pinned: Option<Json>) -> Result<Seq<RecordView>, LoadError> {
    match pinned {
        None => Ok(Seq::empty()),
        Some(Json::Array(items)) => decoded_all(items@),
        Some(_) => Err(LoadError::NotArray),
    }
}

/// The value of the result of reading one record.
pub open spec fn record_result(r: Result<Record, LoadError>) -> Result<RecordView, LoadError> {
    match r {
        Ok(record) => Ok(record@),
        Err(e) => Err(e),
    }
}

/// The value of the result of reading saved state.
pub open spec fn records_result(r: Result<Vec<Record>, LoadError>) -> Result<
    Seq<RecordView>,
    LoadError,
> {
    match r {
        Ok(records) => Ok(records.deep_view()),
        Err(e) => Err(e),
    }
}

/// Whether `value` is the string `text`.
pub open spec fn is_text(value: Json, text: Seq<char>) -> bool {
    value matches Json::Text(held) && held@ == text
}

/// Whether `pair` names `value` as `key`.
pub open spec fn is_pair(pair: (String, Json), key: Seq<char>) -> bool {
    pair.0@ == key
}

/// Whether `json` is the saved form of `record`: an object with the
/// record's `type` and then its `content`. The content of a text is a
/// string, that of paths a list of strings, and that of an image an
/// object with `file`, `height` and `width`, in this order.
pub open spec fn saves(json: Json, record: RecordView) -> bool {
    &&& json matches Json::Object(pairs)
    &&& pairs@.len() == 2
    &&& is_pair(pairs@[0], "type"@)
    &&& is_pair(pairs@[1], "content"@)
    &&& match record {
        RecordView::Text { text } => is_text(pairs@[0].1, "text"@) && is_text(pairs@[1].1, text),
        RecordView::Paths { paths } => {
            &&& is_text(pairs@[0].1, "paths"@)
            &&& pairs@[1].1 matches Json::Array(items)
            &&& all_text(items@)
            &&& texts(items@) == paths
        },
        RecordView::Image { file, width, height } => {
            &&& is_text(pairs@[0].1, "image"@)
            &&& pairs@[1].1 matches Json::Object(parts)
            &&& parts@.len() == 3
            &&& is_pair(parts@[0], "file"@)
            &&& is_text(parts@[0].1, file)
            &&& is_pair(parts@[1], "height"@)
            &&& parts@[1].1 == Json::Number(height as u64)
            &&& is_pair(parts@[2], "width"@)
            &&& parts@[2].1 == Json::Number(width as u64)
        },
    }
}

/// Whether `json` is the saved form of `records`: the list of their
/// saved forms.
pub open spec fn saves_all(json: Json, records: Seq<RecordView>) -> bool {
    &&& json matches Json::Array(items)
    &&& items@.len() == records.len()
    &&& forall|i: int| 0 <= i < records.len() ==> saves(#[trigger] items@[i], records[i])
}

proof fn lemma_lookup_at(pairs: Seq<(String, Json)>, key: Seq<char>, i: int)
    requires
        0 <= i < pairs.len(),
        pairs[i].0@ == key,
        forall|k: int| 0 <= k < i ==> pairs[k].0@ != key,
    ensures
        lookup(pairs, key) == Some(pairs[i].1),
    decreases i,
{
    if i > 0 {
        let rest = pairs.drop_first();
        assert(rest[i - 1] == pairs[i]);
        assert forall|k: int| 0 <= k < i - 1 implies rest[k].0@ != key by {
            assert(rest[k] == pairs[k + 1]);
        }
        lemma_lookup_at(rest, key, i - 1);
    }
}

proof fn lemma_names_differ()
    ensures
        "type"@ != "content"@,
        "text"@ != "paths"@,
        "text"@ != "image"@,
        "paths"@ != "image"@,
        "file"@ != "height"@,
        "file"@ != "width"@,
        "height"@ != "width"@,
{
    reveal_strlit("type");
    reveal_strlit("content");
    reveal_strlit("text");
    reveal_strlit("paths");
    reveal_strlit("image");
    reveal_strlit("file");
    reveal_strlit("height");
    reveal_strlit("width");
    assert("type"@.len() == 4 && "content"@.len() == 7);
    assert("text"@.len() == 4 && "paths"@.len() == 5 && "image"@.len() == 5);
    assert("file"@.len() == 4 && "height"@.len() == 6 && "width"@.len() == 5);
    assert("paths"@[0] == 'p');
    assert("image"@[0] == 'i');
}

/// What was saved reads back: the saved form of a record stands for that
/// record.
pub proof fn law_saved_record_reads_back(json: Json, record: RecordView)
    requires
        saves(json, record),
    ensures
        decoded(json) == Ok::<RecordView, LoadError>(record),
{
    lemma_names_differ();
    let pairs = json->Object_0@;
    lemma_lookup_at(pairs, "type"@, 0);
    lemma_lookup_at(pairs, "content"@, 1);
    match record {
        RecordView::Text { text } => {},
        RecordView::Paths { paths } => {},
        RecordView::Image { file, width, height } => {
            let parts = pairs[1].1->Object_0@;
            lemma_lookup_at(parts, "file"@, 0);
            lemma_lookup_at(parts, "height"@, 1);
            lemma_lookup_at(parts, "width"@, 2);
            assert(dimension(width as u64) == width);
            assert(dimension(height as u64) == height);
        },
    }
}

/// What was saved reads back: the saved form of a list of records stands
/// for that list.
pub proof fn law_saved_state_reads_back(json: Json, records: Seq<RecordView>)
    requires
        saves_all(json, records),
    ensures
        decoded_pinned(Some(json)) == Ok::<Seq<RecordView>, LoadError>(records),
{
    lemma_saved_prefix_reads_back(json->Array_0@, records, records.len() as int);
    assert(json->Array_0@.take(records.len() as int) =~= json->Array_0@);
    assert(records.take(records.len() as int) =~= records);
}

proof fn lemma_saved_prefix_reads_back(items: Seq<Json>, records: Seq<RecordView>, n: int)
    requires
        items.len() == records.len(),
        0 <= n <= records.len(),
        forall|i: int| 0 <= i < records.len() ==> saves(#[trigger] items[i], records[i]),
    ensures
        decoded_all(items.take(n)) == Ok::<Seq<RecordView>, LoadError>(records.take(n)),
    decreases n,
{
    if n == 0 {
        assert(records.take(0) =~= Seq::<RecordView>::empty());
    } else {
        lemma_saved_prefix_reads_back(items, records, n - 1);
        assert(items.take(n).drop_last() =~= items.take(n - 1));
        assert(items.take(n).last() == items[n - 1]);
        law_saved_record_reads_back(items[n - 1], records[n - 1]);
        assert(records.take(n) =~= records.take(n - 1).push(records[n - 1]));
    }
}

fn text_json(text: &String) -> (json: Json)
    ensures
        is_text(json, text@),
{
    Json::Text(text.clone())
}

fn named_json(name: &str) -> (json: Json)
    ensures
        is_text(json, name@),
{
    Json::Text(String::from_str(name))
}

fn pair(key: &str, value: Json) -> (out: (String, Json))
    ensures
        is_pair(out, key@),
        out.1 == value,
{
    (String::from_str(key), value)
}

fn pair_up(first: (String, Json), second: (String, Json)) -> (json: Json)
    ensures
        json matches Json::Object(pairs) && pairs@ == seq![first, second],
{
    let mut pairs: Vec<(String, Json)> = Vec::new();
    pairs.push(first);
    pairs.push(second);
    assert(pairs@ =~= seq![first, second]);
    Json::Object(pairs)
}

impl Record {
    /// The saved form of the record.
    pub fn to_json(&self) -> (json: Json)
        ensures
            saves(json, self@),
    {
        match self {
            Record::Text { text } => pair_up(
                pair("type", named_json("text")),
                pair("content", text_json(text)),
            ),
            Record::Paths { paths } => {
                let mut items: Vec<Json> = Vec::new();
                let mut i: usize = 0;
                while i < paths.len()
                    invariant
                        i <= paths@.len(),
                        items@.len() == i,
                        forall|k: int| 0 <= k < i ==> is_text(#[trigger] items@[k], paths@[k]@),
                    decreases paths@.len() - i,
                {
                    items.push(text_json(&paths[i]));
                    i += 1;
                }
                assert(all_text(items@));
                assert(texts(items@) =~= paths.deep_view());
                pair_up(pair("type", named_json("paths")), pair("content", Json::Array(items)))
            },
            Record::Image { file, width, height } => {
                let mut parts: Vec<(String, Json)> = Vec::new();
                parts.push(pair("file", text_json(file)));
                parts.push(pair("height", Json::Number(*height as u64)));
                parts.push(pair("width", Json::Number(*width as u64)));
                pair_up(pair("type", named_json("image")), pair("content", Json::Object(parts)))
            },
        }
    }
}

/// The saved form of `records`.
pub fn to_json(records: &Vec<Record>) -> (json: Json)
    ensures
        saves_all(json, records.deep_view()),
{
    let mut items: Vec<Json> = Vec::new();
    let mut i: usize = 0;
    while i < records.len()
        invariant
            i <= records@.len(),
            items@.len() == i,
            forall|k: int| 0 <= k < i ==> saves(#[trigger] items@[k], records@[k]@),
        decreases records@.len() - i,
    {
        items.push(records[i].to_json());
        i += 1;
    }
    Json::Array(items)
}

fn find<'a>(pairs: &'a Vec<(String, Json)>, key: &str) -> (found: Option<&'a Json>)
    ensures
        match found {
            Some(value) => lookup(pairs@, key@) == Some(*value),
            None => lookup(pairs@, key@) is None,
        },
{
    let wanted = String::from_str(key);
    let mut i: usize = 0;
    assert(pairs@.skip(0) =~= pairs@);
    while i < pairs.len()
        invariant
            i <= pairs@.len(),
            wanted@ == key@,
            lookup(pairs@, key@) == lookup(pairs@.skip(i as int), key@),
        decreases pairs@.len() - i,
    {
        proof {
            assert(pairs@.skip(i as int)[0] == pairs@[i as int]);
            assert(pairs@.skip(i as int).drop_first() =~= pairs@.skip(i + 1));
        }
        if same_string(&pairs[i].0, &wanted) {
            return Some(&pairs[i].1);
        }
        i += 1;
    }
    None
}

fn is_named(text: &String, name: &str) -> (same: bool)
    ensures
        same == (text@ == name@),
{
    let wanted = String::from_str(name);
    same_string(text, &wanted)
}

fn low_bits(n: u64) -> (d: u32)
    ensures
        d == dimension(n),
{
    (n % 0x1_0000_0000) as u32
}

fn load_text(content: &Json) -> (out: Result<Record, LoadError>)
    ensures
        record_result(out) == decoded_text(*content),
{
    match content {
        Json::Text(text) => Ok(Record::Text { text: text.clone() }),
        _ => Err(LoadError::TextNotString),
    }
}

fn load_paths(content: &Json) -> (out: Result<Record, LoadError>)
    ensures
        record_result(out) == decoded_paths(*content),
{
    match content {
        Json::Array(items) => {
            let mut paths: Vec<String> = Vec::new();
            let mut i: usize = 0;
            while i < items.len()
                invariant
                    i <= items@.len(),
                    paths@.len() == i,
                    forall|k: int| 0 <= k < i ==> #[trigger] items@[k] is Text,
                    forall|k: int| 0 <= k < i ==> (#[trigger] paths@[k])@ == items@[k]->Text_0@,
                    *content == Json::Array(*items),
                decreases items@.len() - i,
            {
                match &items[i] {
                    Json::Text(path) => {
                        paths.push(path.clone());
                    },
                    _ => {
                        assert(!(items@[i as int] is Text));
                        return Err(LoadError::PathNotString);
                    },
                }
                i += 1;
            }
            assert(paths.deep_view() =~= texts(items@));
            Ok(Record::Paths { paths })
        },
        _ => Err(LoadError::PathsNotArray),
    }
}

fn load_image(content: &Json) -> (out: Result<Record, LoadError>)
    ensures
        record_result(out) == decoded_image(*content),
{
    match content {
        Json::Object(pairs) => {
            let file = match find(pairs, "file") {
                None => {
                    return Err(LoadError::NoFile);
                },
                Some(Json::Text(file)) => file,
                Some(_) => {
                    return Err(LoadError::FileNotString);
                },
            };
            let height = match find(pairs, "height") {
                None => {
                    return Err(LoadError::NoHeight);
                },
                Some(Json::Number(height)) => *height,
                Some(_) => {
                    return Err(LoadError::HeightNotNumber);
                },
            };
            let width = match find(pairs, "width") {
                None => {
                    return Err(LoadError::NoWidth);
                },
                Some(Json::Number(width)) => *width,
                Some(_) => {
                    return Err(LoadError::WidthNotNumber);
                },
            };
            Ok(Record::Image { file: file.clone(), width: low_bits(width), height: low_bits(height) })
        },
        _ => Err(LoadError::ImageNotObject),
    }
}

/// Reads one item of the saved list.
pub fn load_item(item: &Json) -> (out: Result<Record, LoadError>)
    ensures
        record_result(out) == decoded(*item),
{
    match item {
        Json::Object(pairs) => {
            let kind = match find(pairs, "type") {
                None => {
                    return Err(LoadError::NoType);
                },
                Some(Json::Text(kind)) => kind,
                Some(_) => {
                    return Err(LoadError::TypeNotString);
                },
            };
            let content = match find(pairs, "content") {
                None => {
                    return Err(LoadError::NoContent);
                },
                Some(content) => content,
            };
            if is_named(kind, "text") {
                load_text(content)
            } else if is_named(kind, "paths") {
                load_paths(content)
            } else if is_named(kind, "image") {
                load_image(content)
            } else {
                Err(LoadError::UnknownType)
            }
        },
        _ => Err(LoadError::ItemNotObject),
    }
}

/// Reads the saved state: `None` where nothing was ever saved, else the
/// value that was saved.
pub fn load_pinned(pinned: Option<&Json>) -> (out: Result<Vec<Record>, LoadError>)
    ensures
        records_result(out) == decoded_pinned(
            match pinned {
                Some(value) => Some(*value),
                None => None,
            },
        ),
{
    match pinned {
        None => {
            let records: Vec<Record> = Vec::new();
            assert(records.deep_view() =~= Seq::<RecordView>::empty());
            Ok(records)
        },
        Some(Json::Array(items)) => {
            let mut records: Vec<Record> = Vec::new();
            let mut i: usize = 0;
            assert(records.deep_view() =~= Seq::<RecordView>::empty());
            assert(items@.take(0) =~= Seq::<Json>::empty());
            while i < items.len()
                invariant
                    i <= items@.len(),
                    decoded_all(items@.take(i as int)) == Ok::<Seq<RecordView>, LoadError>(
                        records.deep_view(),
                    ),
                    pinned == Some(&Json::Array(*items)),
                decreases items@.len() - i,
            {
                let ghost before = records.deep_view();
                proof {
                    assert(items@.take(i + 1).drop_last() =~= items@.take(i as int));
                    assert(items@.take(i + 1).last() == items@[i as int]);
                }
                match load_item(&items[i]) {
                    Ok(record) => {
                        records.push(record);
                        assert(records.deep_view() =~= before.push(record@));
                    },
                    Err(e) => {
                        proof {
                            lemma_first_error(items@, i as int, e);
                        }
                        return Err(e);
                    },
                }
                i += 1;
            }
            assert(items@.take(items@.len() as int) =~= items@);
            Ok(records)
        },
        Some(_) => Err(LoadError::NotArray),
    }
}

proof fn lemma_first_error(items: Seq<Json>, i: int, e: LoadError)
    requires
        0 <= i < items.len(),
        decoded_all(items.take(i)) is Ok,
        decoded(items[i]) == Err::<RecordView, LoadError>(e),
    ensures
        decoded_all(items) == Err::<Seq<RecordView>, LoadError>(e),
    decreases items.len() - i,
{
    assert(items.take(i + 1).drop_last() =~= items.take(i));
    assert(items.take(i + 1).last() == items[i]);
    assert(decoded_all(items.take(i + 1)) == Err::<Seq<RecordView>, LoadError>(e));
    lemma_error_stays(items, i + 1, e);
}

proof fn lemma_error_stays(items: Seq<Json>, n: int, e: LoadError)
    requires
        0 <= n <= items.len(),
        decoded_all(items.take(n)) == Err::<Seq<RecordView>, LoadError>(e),
    ensures
        decoded_all(items) == Err::<Seq<RecordView>, LoadError>(e),
    decreases items.len() - n,
{
    if n == items.len() {
        assert(items.take(n) =~= items);
    } else {
        assert(items.take(n + 1).drop_last() =~= items.take(n));
        lemma_error_stays(items, n + 1, e);
    }
}

} // verus!

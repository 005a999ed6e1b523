use purple::contents::Contents;
use purple::pinned::{
    file_name, load_item, load_pinned, store_pinned, to_json, Json, LoadError, Record,
};

fn text(s: &str) -> Json {
    Json::Text(s.to_string())
}

fn object(pairs: Vec<(&str, Json)>) -> Json {
    Json::Object(pairs.into_iter().map(|(k, v)| (k.to_string(), v)).collect())
}

fn item(kind: &str, content: Json) -> Json {
    object(vec![("type", text(kind)), ("content", content)])
}

fn image_content(file: Json, height: Json, width: Json) -> Json {
    object(vec![("file", file), ("height", height), ("width", width)])
}

fn error_of(item: &Json) -> LoadError {
    match load_item(item) {
        Err(e) => e,
        Ok(r) => panic!("expected an error, got {:?}", r),
    }
}

#[test]
fn file_names_are_decimal() {
    assert_eq!(file_name(0), "0");
    assert_eq!(file_name(1), "1");
    assert_eq!(file_name(9), "9");
    assert_eq!(file_name(10), "10");
    assert_eq!(file_name(1234567890), "1234567890");
    assert_eq!(file_name(u64::MAX), "18446744073709551615");
}

#[test]
fn store_numbers_the_images_from_one() {
    let contents = vec![
        Contents::Text { text: "hello".to_string() },
        Contents::Image { thumbnail: "t1".to_string(), rgba: vec![1, 2, 3, 4], width: 1, height: 1 },
        Contents::FilePath { paths: vec!["/a".to_string(), "/b".to_string()] },
        Contents::Image {
            thumbnail: "t2".to_string(),
            rgba: vec![5, 6, 7, 8, 9, 10, 11, 12],
            width: 2,
            height: 1,
        },
    ];
    let saved = store_pinned(&contents);
    assert_eq!(saved.records.len(), 4);
    assert!(matches!(&saved.records[0], Record::Text { text } if text == "hello"));
    assert!(matches!(
        &saved.records[1],
        Record::Image { file, width: 1, height: 1 } if file == "1"
    ));
    assert!(matches!(
        &saved.records[2],
        Record::Paths { paths } if paths == &vec!["/a".to_string(), "/b".to_string()]
    ));
    assert!(matches!(
        &saved.records[3],
        Record::Image { file, width: 2, height: 1 } if file == "2"
    ));
    assert_eq!(saved.images.len(), 2);
    assert_eq!(saved.images[0].name, "1");
    assert_eq!(saved.images[0].rgba, vec![1, 2, 3, 4]);
    assert_eq!(saved.images[1].name, "2");
    assert_eq!(saved.images[1].rgba, vec![5, 6, 7, 8, 9, 10, 11, 12]);
}

#[test]
fn store_of_nothing_is_empty() {
    let saved = store_pinned(&Vec::new());
    assert!(saved.records.is_empty());
    assert!(saved.images.is_empty());
}

#[test]
fn saved_form_has_type_and_content() {
    let json = Record::Text { text: "hi".to_string() }.to_json();
    match json {
        Json::Object(pairs) => {
            assert_eq!(pairs.len(), 2);
            assert_eq!(pairs[0].0, "type");
            assert!(matches!(&pairs[0].1, Json::Text(t) if t == "text"));
            assert_eq!(pairs[1].0, "content");
            assert!(matches!(&pairs[1].1, Json::Text(t) if t == "hi"));
        }
        other => panic!("not an object: {:?}", other),
    }
    let json = Record::Image { file: "3".to_string(), width: 640, height: 480 }.to_json();
    match json {
        Json::Object(pairs) => {
            assert!(matches!(&pairs[0].1, Json::Text(t) if t == "image"));
            match &pairs[1].1 {
                Json::Object(parts) => {
                    assert_eq!(parts.len(), 3);
                    assert_eq!(parts[0].0, "file");
                    assert!(matches!(&parts[0].1, Json::Text(t) if t == "3"));
                    assert_eq!(parts[1].0, "height");
                    assert!(matches!(parts[1].1, Json::Number(480)));
                    assert_eq!(parts[2].0, "width");
                    assert!(matches!(parts[2].1, Json::Number(640)));
                }
                other => panic!("not an object: {:?}", other),
            }
        }
        other => panic!("not an object: {:?}", other),
    }
}

#[test]
fn saved_state_reads_back() {
    let contents = vec![
        Contents::FilePath { paths: vec!["/x y".to_string()] },
        Contents::Image { thumbnail: "t".to_string(), rgba: vec![0; 16], width: 2, height: 2 },
        Contents::Text { text: "päper".to_string() },
    ];
    let saved = store_pinned(&contents);
    let json = to_json(&saved.records);
    let loaded = load_pinned(Some(&json)).unwrap();
    assert_eq!(loaded.len(), 3);
    assert!(matches!(&loaded[0], Record::Paths { paths } if paths == &vec!["/x y".to_string()]));
    assert!(matches!(&loaded[1], Record::Image { file, width: 2, height: 2 } if file == "1"));
    assert!(matches!(&loaded[2], Record::Text { text } if text == "päper"));
}

#[test]
fn nothing_saved_loads_as_nothing() {
    assert!(load_pinned(None).unwrap().is_empty());
    assert!(load_pinned(Some(&Json::Array(Vec::new()))).unwrap().is_empty());
}

#[test]
fn saved_state_must_be_a_list() {
    assert_eq!(load_pinned(Some(&text("x"))).unwrap_err(), LoadError::NotArray);
    assert_eq!(load_pinned(Some(&object(vec![]))).unwrap_err(), LoadError::NotArray);
    assert_eq!(load_pinned(Some(&Json::Other)).unwrap_err(), LoadError::NotArray);
}

#[test]
fn first_wrong_item_decides_the_error() {
    let list = Json::Array(vec![
        item("text", text("fine")),
        item("paths", text("not a list")),
        Json::Number(3),
    ]);
    assert_eq!(load_pinned(Some(&list)).unwrap_err(), LoadError::PathsNotArray);
}

#[test]
fn each_error_has_an_input() {
    assert_eq!(error_of(&Json::Number(1)), LoadError::ItemNotObject);
    assert_eq!(error_of(&object(vec![("content", text("x"))])), LoadError::NoType);
    assert_eq!(
        error_of(&object(vec![("type", Json::Number(1)), ("content", text("x"))])),
        LoadError::TypeNotString
    );
    assert_eq!(error_of(&object(vec![("type", text("text"))])), LoadError::NoContent);
    assert_eq!(error_of(&object(vec![("type", text("bogus"))])), LoadError::NoContent);
    assert_eq!(error_of(&item("text", Json::Number(1))), LoadError::TextNotString);
    assert_eq!(error_of(&item("paths", text("x"))), LoadError::PathsNotArray);
    assert_eq!(
        error_of(&item("paths", Json::Array(vec![text("/a"), Json::Other]))),
        LoadError::PathNotString
    );
    assert_eq!(error_of(&item("image", text("x"))), LoadError::ImageNotObject);
    assert_eq!(
        error_of(&item("image", object(vec![("height", Json::Number(1)), ("width", Json::Number(1))]))),
        LoadError::NoFile
    );
    assert_eq!(
        error_of(&item("image", image_content(Json::Number(1), Json::Number(1), Json::Number(1)))),
        LoadError::FileNotString
    );
    assert_eq!(
        error_of(&item("image", object(vec![("file", text("1")), ("width", Json::Number(1))]))),
        LoadError::NoHeight
    );
    assert_eq!(
        error_of(&item("image", image_content(text("1"), Json::Other, Json::Number(1)))),
        LoadError::HeightNotNumber
    );
    assert_eq!(
        error_of(&item("image", object(vec![("file", text("1")), ("height", Json::Number(1))]))),
        LoadError::NoWidth
    );
    assert_eq!(
        error_of(&item("image", image_content(text("1"), Json::Number(1), text("wide")))),
        LoadError::WidthNotNumber
    );
    assert_eq!(error_of(&item("bogus", text("x"))), LoadError::UnknownType);
    assert_eq!(error_of(&item("Text", text("x"))), LoadError::UnknownType);
}

#[test]
fn dimensions_keep_their_low_bits() {
    let big = item(
        "image",
        image_content(text("7"), Json::Number((1u64 << 32) + 5), Json::Number(u64::MAX)),
    );
    match load_item(&big).unwrap() {
        Record::Image { file, width, height } => {
            assert_eq!(file, "7");
            assert_eq!(height, 5);
            assert_eq!(width, u32::MAX);
        }
        other => panic!("not an image: {:?}", other),
    }
}

#[test]
fn keys_may_come_in_any_order_and_with_others() {
    let json = object(vec![
        ("note", Json::Other),
        ("content", Json::Array(vec![text("/a"), text("/b")])),
        ("type", text("paths")),
    ]);
    match load_item(&json).unwrap() {
        Record::Paths { paths } => assert_eq!(paths, vec!["/a".to_string(), "/b".to_string()]),
        other => panic!("not paths: {:?}", other),
    }
    let json = item("paths", Json::Array(Vec::new()));
    assert!(matches!(load_item(&json).unwrap(), Record::Paths { paths } if paths.is_empty()));
}

#[test]
fn load_error_messages() {
    assert_eq!(LoadError::NotArray.message(), "Value for pinned key was not an array");
    assert_eq!(
        LoadError::UnknownType.message(),
        "type for pinned object not 'image', 'paths', or 'text'"
    );
    assert_eq!(
        LoadError::HeightNotNumber.message(),
        "Value for 'height' in image data object could not be cast as a u64"
    );
}

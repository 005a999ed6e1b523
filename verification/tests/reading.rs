use purple::clipboard_files::ClipboardError;
use purple::contents::{Contents, ImageRead, Reading, Source, Step};

fn image(png: Option<Vec<u8>>) -> ImageRead {
    ImageRead { rgba: vec![1, 2, 3, 4], width: 1, height: 1, png }
}

#[test]
fn files_are_tried_first() {
    assert_eq!(Source::first(), Source::Files);
}

#[test]
fn file_paths_are_taken() {
    let step = Contents::try_from_clipboard(Reading::Files(Ok(vec!["/a".to_string()])));
    match step {
        Step::Take(Contents::FilePath { paths }) => assert_eq!(paths, vec!["/a".to_string()]),
        other => panic!("unexpected step: {:?}", other),
    }
}

#[test]
fn without_files_an_image_is_tried() {
    let step = Contents::try_from_clipboard(Reading::Files(Err(ClipboardError::NoFiles)));
    assert!(matches!(step, Step::Try(Source::Image)));
    let refused = ClipboardError::SystemError("no display".to_string());
    let step = Contents::try_from_clipboard(Reading::Files(Err(refused)));
    assert!(matches!(step, Step::Try(Source::Image)));
}

#[test]
fn an_image_with_a_png_is_taken_with_its_thumbnail() {
    let step = Contents::try_from_clipboard(Reading::Image(Some(image(Some(b"foobar".to_vec())))));
    match step {
        Step::Take(Contents::Image { thumbnail, rgba, width, height }) => {
            assert_eq!(thumbnail, "data:image/png;base64,Zm9vYmFy");
            assert_eq!(rgba, vec![1, 2, 3, 4]);
            assert_eq!((width, height), (1, 1));
        }
        other => panic!("unexpected step: {:?}", other),
    }
}

#[test]
fn without_a_showable_image_text_is_tried() {
    assert!(matches!(Contents::try_from_clipboard(Reading::Image(None)), Step::Try(Source::Text)));
    assert!(matches!(
        Contents::try_from_clipboard(Reading::Image(Some(image(None)))),
        Step::Try(Source::Text)
    ));
}

#[test]
fn text_is_taken_and_nothing_follows_it() {
    match Contents::try_from_clipboard(Reading::Text(Some("hello".to_string()))) {
        Step::Take(Contents::Text { text }) => assert_eq!(text, "hello"),
        other => panic!("unexpected step: {:?}", other),
    }
    assert!(matches!(Contents::try_from_clipboard(Reading::Text(None)), Step::GiveUp));
}

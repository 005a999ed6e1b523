//! File paths on the clipboard: from the URI list that the system hands
//! over to plain paths, and back.

use vstd::prelude::*;

verus! {

/// Why the clipboard gave no file paths, or took none.
#[derive(Debug)]
pub enum ClipboardError {
    /// The clipboard holds no file paths.
    NoFiles,
    /// The system refused; the text is its reason.
    SystemError(String),
}

impl ClipboardError {
    /// The error as a line of text.
    pub fn message(&self) -> (text: String)
        ensures
            text@ == match self {
                ClipboardError::NoFiles => "No file paths in the clipboard"@,
                ClipboardError::SystemError(reason) => "The system returned an error: "@
                    + reason@,
            },
    {
        match self {
            ClipboardError::NoFiles => String::from_str("No file paths in the clipboard"),
            ClipboardError::SystemError(reason) => {
                let mut text = String::from_str("The system returned an error: ");
                text.append(reason.as_str());
                text
            },
        }
    }
}

/// The scheme in front of a local path in a URI.
pub open spec fn scheme() -> Seq<char> {
    "file://"@
}

/// Whether `uri` starts with the scheme of local files.
pub open spec fn has_scheme(uri: Seq<char>) -> bool {
    uri.len() >= scheme().len() && uri.subrange(0, scheme().len() as int) == scheme()
}

/// `uri` without the scheme of local files, where it starts with it.
pub open spec fn stripped(uri: Seq<char>) -> Seq<char> {
    if has_scheme(uri) {
        uri.subrange(scheme().len() as int, uri.len() as int)
    } else {
        uri
    }
}

/// The local paths among `uris`, in order: each URI with the scheme of
/// local files, without that scheme.
pub open spec fn local_paths(uris: Seq<Seq<char>>) -> Seq<Seq<char>>
    decreases uris.len(),
{
    if uris.len() == 0 {
        Seq::empty()
    } else if has_scheme(uris.last()) {
        local_paths(uris.drop_last()).push(stripped(uris.last()))
    } else {
        local_paths(uris.drop_last())
    }
}

/// The URI list for `paths`: each path behind the scheme of local files,
/// one per line, the lines parted by a carriage return and a line feed.
pub open spec fn uri_list(paths: Seq<Seq<char>>) -> Seq<char>
    decreases paths.len(),
{
    if paths.len() == 0 {
        Seq::empty()
    } else if paths.len() == 1 {
        scheme() + paths[0]
    } else {
        uri_list(paths.drop_last()) + "\r\n"@ + scheme() + paths.last()
    }
}

fn starts_with_scheme(uri: &str) -> (yes: bool)
    ensures
        yes == has_scheme(uri@),
        scheme().len() == 7,
{
    let prefix = "file://";
    proof {
        reveal_strlit("file://");
    }
    let n = uri.unicode_len();
    if n < 7 {
        return false;
    }
    let mut i: usize = 0;
    while i < 7
        invariant
            i <= 7,
            n == uri@.len(),
            n >= 7,
            prefix@ == scheme(),
            prefix@.len() == 7,
            forall|k: int| 0 <= k < i ==> uri@[k] == prefix@[k],
        decreases 7 - i,
    {
        if uri.get_char(i) != prefix.get_char(i) {
            assert(uri@.subrange(0, 7)[i as int] != prefix@[i as int]);
            return false;
        }
        i += 1;
    }
    assert(uri@.subrange(0, 7) =~= prefix@);
    true
}

/// `p` without a leading `file://`; a `p` that does not start so comes
/// back as it is.
pub fn strip_prefix(p: String) -> (path: String)
    ensures
        path@ == stripped(p@),
{
    if starts_with_scheme(p.as_str()) {
        let n = p.as_str().unicode_len();
        String::from_str(p.as_str().substring_char(7, n))
    } else {
        p
    }
}

/// The file paths that a clipboard holding the URIs `uris` holds. A
/// clipboard without URIs holds no files; a URI that names no local file
/// is passed over.
pub fn read(uris: Vec<String>) -> (paths: Result<Vec<String>, ClipboardError>)
    ensures
        match paths {
            Ok(list) => uris.len() > 0 && list.deep_view() == local_paths(uris.deep_view()),
            Err(e) => uris.len() == 0 && e is NoFiles,
        },
{
    if uris.len() == 0 {
        return Err(ClipboardError::NoFiles);
    }
    let ghost all = uris.deep_view();
    let mut list: Vec<String> = Vec::new();
    let mut i: usize = 0;
    assert(list.deep_view() =~= local_paths(all.take(0)));
    while i < uris.len()
        invariant
            i <= uris.len(),
            all == uris.deep_view(),
            list.deep_view() == local_paths(all.take(i as int)),
        decreases uris.len() - i,
    {
        let ghost before = list.deep_view();
        proof {
            assert(all.take(i + 1).drop_last() =~= all.take(i as int));
            assert(all.take(i + 1).last() == uris[i as int]@);
        }
        if starts_with_scheme(uris[i].as_str()) {
            let n = uris[i].as_str().unicode_len();
            list.push(String::from_str(uris[i].as_str().substring_char(7, n)));
            proof {
                assert(list.deep_view() =~= before.push(stripped(uris[i as int]@)));
            }
        }
        i += 1;
    }
    proof {
        assert(all.take(uris.len() as int) =~= all);
    }
    Ok(list)
}

/// The URI list to put on the clipboard for the file paths `paths`.
pub fn write(paths: &Vec<String>) -> (uris: String)
    ensures
        uris@ == uri_list(paths.deep_view()),
{
    let ghost all = paths.deep_view();
    let mut uris = String::new();
    let mut i: usize = 0;
    proof {
        reveal_strlit("file://");
    }
    while i < paths.len()
        invariant
            i <= paths.len(),
            all == paths.deep_view(),
            uris@ == uri_list(all.take(i as int)),
        decreases paths.len() - i,
    {
        proof {
            assert(all.take(i + 1).drop_last() =~= all.take(i as int));
            assert(all.take(i + 1).last() == paths[i as int]@);
            if i == 0 {
                assert(all.take(1)[0] == paths[0]@);
            }
        }
        if i > 0 {
            uris.append("\r\n");
        }
        uris.append("file://");
        uris.append(paths[i].as_str());
        proof {
            assert(uris@ =~= uri_list(all.take(i + 1)));
        }
        i += 1;
    }
    proof {
        assert(all.take(paths.len() as int) =~= all);
    }
    uris
}

} // verus!

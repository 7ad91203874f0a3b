use crate::pattern::{split_by, split_on};
use crate::text::{chars_of, lowercase, same_chars, to_lowercase, views_of};
use vstd::prelude::*;

verus! {

/// What stands behind the last dot of a path; the whole path if it holds
/// no dot.
pub open spec fn extension(path: Seq<char>) -> Seq<char> {
    split_on(path, seq!['.']).last()
}

/// The MIME type that goes with a file extension in lower case.
pub open spec fn mime_for(ext: Seq<char>) -> Seq<char> {
    if ext == "txt"@ || ext == "md"@ || ext == "markdown"@ {
        "text/plain"@
    } else if ext == "json"@ {
        "application/json"@
    } else if ext == "yaml"@ || ext == "yml"@ {
        "text/yaml"@
    } else if ext == "py"@ {
        "text/x-python"@
    } else if ext == "rs"@ {
        "text/x-rust"@
    } else if ext == "js"@ || ext == "ts"@ || ext == "jsx"@ || ext == "tsx"@ {
        "text/javascript"@
    } else if ext == "html"@ || ext == "htm"@ {
        "text/html"@
    } else if ext == "css"@ {
        "text/css"@
    } else if ext == "pdf"@ {
        "application/pdf"@
    } else {
        "application/octet-stream"@
    }
}

/// Whether `ext` spells `name`.
fn is(ext: &Vec<char>, name: &str) -> (r: bool)
    ensures
        r == (ext@ == name@),
{
    same_chars(ext, &chars_of(name))
}

/// The MIME type of a file, told by the extension of its path in whatever
/// case it is written.
pub fn infer_mime_type(file_path: &str) -> (r: String)
    ensures
        r@ == mime_for(lowercase(extension(file_path@))),
{
    let dot: Vec<char> = vec!['.'];
    assert(dot@ == seq!['.']);
    let parts = split_by(&chars_of(file_path), &dot);
    assert(split_on(file_path@, seq!['.']).len() > 0);
    assert(views_of(parts@).last() == parts[parts.len() - 1]@);
    let ext = to_lowercase(&parts[parts.len() - 1]);
    let mime: &str = if is(&ext, "txt") || is(&ext, "md") || is(&ext, "markdown") {
        "text/plain"
    } else if is(&ext, "json") {
        "application/json"
    } else if is(&ext, "yaml") || is(&ext, "yml") {
        "text/yaml"
    } else if is(&ext, "py") {
        "text/x-python"
    } else if is(&ext, "rs") {
        "text/x-rust"
    } else if is(&ext, "js") || is(&ext, "ts") || is(&ext, "jsx") || is(&ext, "tsx") {
        "text/javascript"
    } else if is(&ext, "html") || is(&ext, "htm") {
        "text/html"
    } else if is(&ext, "css") {
        "text/css"
    } else if is(&ext, "pdf") {
        "application/pdf"
    } else {
        "application/octet-stream"
    };
    mime.to_owned()
}

} // verus!

//! Content types of static assets, inferred from file extensions.

use vstd::prelude::*;
use crate::text::{same_text, to_chars, to_text};

verus! {

/// The content types that the extension table knows.
#[derive(Debug, Clone, Copy, PartialEq, Eq, Structural)]
pub enum MimeType {
    Html,
    Css,
    JavaScript,
    Json,
    Text,
    Xml,
    Csv,
    Png,
    Jpeg,
    Gif,
    Svg,
    Icon,
    Webp,
    Pdf,
    Wasm,
    Woff,
    Woff2,
    Ttf,
    Mp3,
    Mp4,
    Zip,
}

/// The lower-case form of an ASCII upper-case letter; any other character as it is.
pub open spec fn lower_char(c: char) -> char {
    if 'A' <= c && c <= 'Z' {
        ((c as u8) + 32) as char
    } else {
        c
    }
}

/// `s` with its ASCII upper-case letters in lower case.
pub open spec fn lower(s: Seq<char>) -> Seq<char> {
    s.map_values(|c: char| lower_char(c))
}

/// The content type that the table gives to the lower-case extension `ext`.
pub open spec fn table_entry(ext: Seq<char>) -> Option<MimeType> {
    if ext == "html"@ || ext == "htm"@ {
        Some(MimeType::Html)
    } else if ext == "css"@ {
        Some(MimeType::Css)
    } else if ext == "js"@ || ext == "mjs"@ {
        Some(MimeType::JavaScript)
    } else if ext == "json"@ {
        Some(MimeType::Json)
    } else if ext == "txt"@ {
        Some(MimeType::Text)
    } else if ext == "xml"@ {
        Some(MimeType::Xml)
    } else if ext == "csv"@ {
        Some(MimeType::Csv)
    } else if ext == "png"@ {
        Some(MimeType::Png)
    } else if ext == "jpg"@ || ext == "jpeg"@ {
        Some(MimeType::Jpeg)
    } else if ext == "gif"@ {
        Some(MimeType::Gif)
    } else if ext == "svg"@ {
        Some(MimeType::Svg)
    } else if ext == "ico"@ {
        Some(MimeType::Icon)
    } else if ext == "webp"@ {
        Some(MimeType::Webp)
    } else if ext == "pdf"@ {
        Some(MimeType::Pdf)
    } else if ext == "wasm"@ {
        Some(MimeType::Wasm)
    } else if ext == "woff"@ {
        Some(MimeType::Woff)
    } else if ext == "woff2"@ {
        Some(MimeType::Woff2)
    } else if ext == "ttf"@ {
        Some(MimeType::Ttf)
    } else if ext == "mp3"@ {
        Some(MimeType::Mp3)
    } else if ext == "mp4"@ {
        Some(MimeType::Mp4)
    } else if ext == "zip"@ {
        Some(MimeType::Zip)
    } else {
        None
    }
}

/// The content type of files with the extension `ext`, in any letter case.
pub open spec fn mime_of(ext: Seq<char>) -> Option<MimeType> {
    table_entry(lower(ext))
}

/// The content-type string of `mime`.
pub open spec fn content_type(mime: MimeType) -> Seq<char> {
    match mime {
        MimeType::Html => "text/html"@,
        MimeType::Css => "text/css"@,
        MimeType::JavaScript => "text/javascript"@,
        MimeType::Json => "application/json"@,
        MimeType::Text => "text/plain"@,
        MimeType::Xml => "application/xml"@,
        MimeType::Csv => "text/csv"@,
        MimeType::Png => "image/png"@,
        MimeType::Jpeg => "image/jpeg"@,
        MimeType::Gif => "image/gif"@,
        MimeType::Svg => "image/svg+xml"@,
        MimeType::Icon => "image/x-icon"@,
        MimeType::Webp => "image/webp"@,
        MimeType::Pdf => "application/pdf"@,
        MimeType::Wasm => "application/wasm"@,
        MimeType::Woff => "font/woff"@,
        MimeType::Woff2 => "font/woff2"@,
        MimeType::Ttf => "font/ttf"@,
        MimeType::Mp3 => "audio/mpeg"@,
        MimeType::Mp4 => "video/mp4"@,
        MimeType::Zip => "application/zip"@,
    }
}

/// Puts the ASCII upper-case letters of `s` in lower case.
pub fn to_lower(s: &[char]) -> (out: Vec<char>)
    ensures
        out@ == lower(s@),
{
    let mut out: Vec<char> = Vec::new();
    let mut i: usize = 0;
    while i < s.len()
        invariant
            i <= s.len(),
            out@ == lower(s@.take(i as int)),
        decreases s.len() - i,
    {
        let c = s[i];
        let l = if 'A' <= c && c <= 'Z' {
            ((c as u8) + 32) as char
        } else {
            c
        };
        out.push(l);
        assert(out@ =~= lower(s@.take(i + 1)));
        i += 1;
    }
    assert(s@.take(s.len() as int) =~= s@);
    out
}

impl MimeType {
    /// The content type of files with the extension `ext`.
    pub fn from(ext: &str) -> (out: Option<MimeType>)
        ensures
            out == mime_of(ext@),
    {
        let chars = to_chars(ext);
        let lowered = to_text(to_lower(chars.as_slice()).as_slice());
        let e = lowered.as_str();
        if same_text(e, "html") || same_text(e, "htm") {
            Some(MimeType::Html)
        } else if same_text(e, "css") {
            Some(MimeType::Css)
        } else if same_text(e, "js") || same_text(e, "mjs") {
            Some(MimeType::JavaScript)
        } else if same_text(e, "json") {
            Some(MimeType::Json)
        } else if same_text(e, "txt") {
            Some(MimeType::Text)
        } else if same_text(e, "xml") {
            Some(MimeType::Xml)
        } else if same_text(e, "csv") {
            Some(MimeType::Csv)
        } else if same_text(e, "png") {
            Some(MimeType::Png)
        } else if same_text(e, "jpg") || same_text(e, "jpeg") {
            Some(MimeType::Jpeg)
        } else if same_text(e, "gif") {
            Some(MimeType::Gif)
        } else if same_text(e, "svg") {
            Some(MimeType::Svg)
        } else if same_text(e, "ico") {
            Some(MimeType::Icon)
        } else if same_text(e, "webp") {
            Some(MimeType::Webp)
        } else if same_text(e, "pdf") {
            Some(MimeType::Pdf)
        } else if same_text(e, "wasm") {
            Some(MimeType::Wasm)
        } else if same_text(e, "woff") {
            Some(MimeType::Woff)
        } else if same_text(e, "woff2") {
            Some(MimeType::Woff2)
        } else if same_text(e, "ttf") {
            Some(MimeType::Ttf)
        } else if same_text(e, "mp3") {
            Some(MimeType::Mp3)
        } else if same_text(e, "mp4") {
            Some(MimeType::Mp4)
        } else if same_text(e, "zip") {
            Some(MimeType::Zip)
        } else {
            None
        }
    }

    /// The content-type string.
    pub fn get(&self) -> (out: &'static str)
        ensures
            out@ == content_type(*self),
    {
        match self {
            MimeType::Html => "text/html",
            MimeType::Css => "text/css",
            MimeType::JavaScript => "text/javascript",
            MimeType::Json => "application/json",
            MimeType::Text => "text/plain",
            MimeType::Xml => "application/xml",
            MimeType::Csv => "text/csv",
            MimeType::Png => "image/png",
            MimeType::Jpeg => "image/jpeg",
            MimeType::Gif => "image/gif",
            MimeType::Svg => "image/svg+xml",
            MimeType::Icon => "image/x-icon",
            MimeType::Webp => "image/webp",
            MimeType::Pdf => "application/pdf",
            MimeType::Wasm => "application/wasm",
            MimeType::Woff => "font/woff",
            MimeType::Woff2 => "font/woff2",
            MimeType::Ttf => "font/ttf",
            MimeType::Mp3 => "audio/mpeg",
            MimeType::Mp4 => "video/mp4",
            MimeType::Zip => "application/zip",
        }
    }
}

} // verus!

//! MIME types by file extension.

use vstd::prelude::*;
use vstd::string::StringExecFns;

use crate::util::text::{chars_of, fields_view, split_chars, split_on, str_eq, string_of};

verus! {

/// The type reported for an extension that the table does not hold.
pub open spec fn default_mime() -> Seq<char> {
    "application/octet-stream"@
}

/// The known extensions, each with its leading dot, and their MIME types.
pub open spec fn mime_table() -> Seq<(&'static str, &'static str)> {
    seq![
        (".aac", "audio/aac"),
        (".abw", "application/x-abiword"),
        (".apng", "image/apng"),
        (".arc", "application/x-freearc"),
        (".avif", "image/avif"),
        (".avi", "video/x-msvideo"),
        (".azw", "application/vnd.amazon.ebook"),
        (".bin", "application/octet-stream"),
        (".bmp", "image/bmp"),
        (".bz", "application/x-bzip"),
        (".bz2", "application/x-bzip2"),
        (".cda", "application/x-cdf"),
        (".csh", "application/x-csh"),
        (".css", "text/css"),
        (".csv", "text/csv"),
        (".doc", "application/msword"),
        (".docx", "application/vnd.openxmlformats-officedocument.wordprocessingml.document"),
        (".eot", "application/vnd.ms-fontobject"),
        (".epub", "application/epub+zip"),
        (".gz", "application/gzip"),
        (".gif", "image/gif"),
        (".htm", "text/html"),
        (".html", "text/html"),
        (".ico", "image/x-icon"),
        (".ics", "text/calendar"),
        (".jar", "application/java-archive"),
        (".jpeg", "image/jpeg"),
        (".jpg", "image/jpeg"),
        (".js", "text/javascript"),
        (".json", "application/json"),
        (".jsonld", "application/ld+json"),
        (".mid", "audio/x-midi"),
        (".midi", "audio/x-midi"),
        (".mjs", "text/javascript"),
        (".mp3", "audio/mpeg"),
        (".mp4", "video/mp4"),
        (".mpeg", "video/mpeg"),
        (".mpkg", "application/vnd.apple.installer+xml"),
        (".odp", "application/vnd.oasis.opendocument.presentation"),
        (".ods", "application/vnd.oasis.opendocument.spreadsheet"),
        (".odt", "application/vnd.oasis.opendocument.text"),
        (".oga", "audio/ogg"),
        (".ogv", "video/ogg"),
        (".ogx", "application/ogg"),
        (".opus", "audio/ogg"),
        (".otf", "font/otf"),
        (".png", "image/png"),
        (".pdf", "application/pdf"),
        (".php", "application/x-httpd-php"),
        (".ppt", "application/vnd.ms-powerpoint"),
        (".pptx", "application/vnd.openxmlformats-officedocument.presentationml.presentation"),
        (".rar", "application/vnd.rar"),
        (".rtf", "application/rtf"),
        (".sh", "application/x-sh"),
        (".svg", "image/svg+xml"),
        (".tar", "application/x-tar"),
        (".tif", "image/tiff"),
        (".tiff", "image/tiff"),
        (".ts", "video/mp2t"),
        (".ttf", "font/ttf"),
        (".txt", "text/plain"),
        (".vsd", "application/vnd.visio"),
        (".wav", "audio/wav"),
        (".weba", "audio/webm"),
        (".webm", "video/webm"),
        (".webp", "image/webp"),
        (".woff", "font/woff"),
        (".woff2", "font/woff2"),
        (".xhtml", "application/xhtml+xml"),
        (".xls", "application/vnd.ms-excel"),
        (".xlsx", "application/vnd.openxmlformats-officedocument.spreadsheetml.sheet"),
        (".xml", "application/xml"),
        (".xul", "application/vnd.mozilla.xul+xml"),
        (".zip", "application/zip"),
        (".3gp", "video/3gpp"),
        (".3g2", "video/3gpp2"),
        (".7z", "application/x-7z-compressed"),
    ]
}

/// The type that the first `upto` rows of the table give for `ext`, if any
/// of them holds it.
pub open spec fn mime_in(ext: Seq<char>, upto: int) -> Option<Seq<char>>
    decreases upto,
{
    if upto <= 0 || upto > mime_table().len() {
        None
    } else {
        match mime_in(ext, upto - 1) {
            Some(m) => Some(m),
            None => if mime_table()[upto - 1].0@ == ext {
                Some(mime_table()[upto - 1].1@)
            } else {
                None
            },
        }
    }
}

/// The extension by which the type of `path` is looked up: a dot, then
/// what follows the last dot of `path`, or the whole of `path` if it has none.
pub open spec fn extension_of(path: Seq<char>) -> Seq<char> {
    seq!['.'] + split_on(path, '.').last()
}

/// The MIME type of the file at `path`, by its extension.
pub open spec fn mime_of(path: Seq<char>) -> Seq<char> {
    match mime_in(extension_of(path), mime_table().len() as int) {
        Some(m) => m,
        None => default_mime(),
    }
}

fn mime_types() -> (table: Vec<(&'static str, &'static str)>)
    ensures
        table@ == mime_table(),
{
    let table = vec![
        (".aac", "audio/aac"),
        (".abw", "application/x-abiword"),
        (".apng", "image/apng"),
        (".arc", "application/x-freearc"),
        (".avif", "image/avif"),
        (".avi", "video/x-msvideo"),
        (".azw", "application/vnd.amazon.ebook"),
        (".bin", "application/octet-stream"),
        (".bmp", "image/bmp"),
        (".bz", "application/x-bzip"),
        (".bz2", "application/x-bzip2"),
        (".cda", "application/x-cdf"),
        (".csh", "application/x-csh"),
        (".css", "text/css"),
        (".csv", "text/csv"),
        (".doc", "application/msword"),
        (".docx", "application/vnd.openxmlformats-officedocument.wordprocessingml.document"),
        (".eot", "application/vnd.ms-fontobject"),
        (".epub", "application/epub+zip"),
        (".gz", "application/gzip"),
        (".gif", "image/gif"),
        (".htm", "text/html"),
        (".html", "text/html"),
        (".ico", "image/x-icon"),
        (".ics", "text/calendar"),
        (".jar", "application/java-archive"),
        (".jpeg", "image/jpeg"),
        (".jpg", "image/jpeg"),
        (".js", "text/javascript"),
        (".json", "application/json"),
        (".jsonld", "application/ld+json"),
        (".mid", "audio/x-midi"),
        (".midi", "audio/x-midi"),
        (".mjs", "text/javascript"),
        (".mp3", "audio/mpeg"),
        (".mp4", "video/mp4"),
        (".mpeg", "video/mpeg"),
        (".mpkg", "application/vnd.apple.installer+xml"),
        (".odp", "application/vnd.oasis.opendocument.presentation"),
        (".ods", "application/vnd.oasis.opendocument.spreadsheet"),
        (".odt", "application/vnd.oasis.opendocument.text"),
        (".oga", "audio/ogg"),
        (".ogv", "video/ogg"),
        (".ogx", "application/ogg"),
        (".opus", "audio/ogg"),
        (".otf", "font/otf"),
        (".png", "image/png"),
        (".pdf", "application/pdf"),
        (".php", "application/x-httpd-php"),
        (".ppt", "application/vnd.ms-powerpoint"),
        (".pptx", "application/vnd.openxmlformats-officedocument.presentationml.presentation"),
        (".rar", "application/vnd.rar"),
        (".rtf", "application/rtf"),
        (".sh", "application/x-sh"),
        (".svg", "image/svg+xml"),
        (".tar", "application/x-tar"),
        (".tif", "image/tiff"),
        (".tiff", "image/tiff"),
        (".ts", "video/mp2t"),
        (".ttf", "font/ttf"),
        (".txt", "text/plain"),
        (".vsd", "application/vnd.visio"),
        (".wav", "audio/wav"),
        (".weba", "audio/webm"),
        (".webm", "video/webm"),
        (".webp", "image/webp"),
        (".woff", "font/woff"),
        (".woff2", "font/woff2"),
        (".xhtml", "application/xhtml+xml"),
        (".xls", "application/vnd.ms-excel"),
        (".xlsx", "application/vnd.openxmlformats-officedocument.spreadsheetml.sheet"),
        (".xml", "application/xml"),
        (".xul", "application/vnd.mozilla.xul+xml"),
        (".zip", "application/zip"),
        (".3gp", "video/3gpp"),
        (".3g2", "video/3gpp2"),
        (".7z", "application/x-7z-compressed"),
    ];
    assert(table@ =~= mime_table());
    table
}

/// The MIME type of the file at `path`, by its extension;
/// `application/octet-stream` for an extension that is not known.
pub fn get_mime_type(path: &str) -> (r: String)
    ensures
        r@ == mime_of(path@),
{
    let chars = chars_of(path);
    let parts = split_chars(&chars, '.');
    assert(fields_view(parts@).last() == parts@.last()@);
    let last = string_of(&parts[parts.len() - 1]);
    let ext = String::from_str(".").concat(last.as_str());
    proof {
        reveal_strlit(".");
        assert("."@ =~= seq!['.']);
        assert(ext@ == extension_of(path@));
    }
    let table = mime_types();
    let mut i: usize = 0;
    while i < table.len()
        invariant
            i <= table.len(),
            table@ == mime_table(),
            ext@ == extension_of(path@),
            mime_in(ext@, i as int) is None,
        decreases table.len() - i,
    {
        if str_eq(table[i].0, ext.as_str()) {
            proof {
                assert(mime_in(ext@, i as int + 1) == Some(table@[i as int].1@));
                lemma_mime_found(ext@, i as int + 1, mime_table().len() as int);
            }
            return String::from_str(table[i].1);
        }
        i += 1;
    }
    String::from_str("application/octet-stream")
}

/// What follows the last separator of a text is its last field: a text
/// that ends in the separator and then `suffix`, in which the separator
/// does not occur, has `suffix` as its last field.
pub proof fn lemma_last_field(before: Seq<char>, suffix: Seq<char>, sep: char)
    requires
        !suffix.contains(sep),
    ensures
        split_on(before.push(sep) + suffix, sep).last() == suffix,
    decreases suffix.len(),
{
    let whole = before.push(sep) + suffix;
    if suffix.len() == 0 {
        assert(whole =~= before.push(sep));
        assert(whole.last() == sep);
        assert(suffix =~= Seq::<char>::empty());
    } else {
        let shorter = suffix.drop_last();
        assert forall|c: char| shorter.contains(c) implies suffix.contains(c) by {
            let i = choose|i: int| 0 <= i < shorter.len() && shorter[i] == c;
            assert(suffix[i] == c);
        }
        assert(suffix[suffix.len() - 1] == suffix.last());
        assert(suffix.contains(suffix.last()));
        lemma_last_field(before, shorter, sep);
        assert(whole.drop_last() =~= before.push(sep) + shorter);
        assert(whole.last() == suffix.last());
        assert(shorter.push(suffix.last()) =~= suffix);
    }
}

/// The table gives `text/html` for the extension `.html`.
pub proof fn lemma_html_row()
    ensures
        mime_in(".html"@, mime_table().len() as int) == Some("text/html"@),
{
    let ext = ".html"@;
    reveal_strlit(".aac");
    reveal_strlit(".abw");
    reveal_strlit(".apng");
    reveal_strlit(".arc");
    reveal_strlit(".avif");
    reveal_strlit(".avi");
    reveal_strlit(".azw");
    reveal_strlit(".bin");
    reveal_strlit(".bmp");
    reveal_strlit(".bz");
    reveal_strlit(".bz2");
    reveal_strlit(".cda");
    reveal_strlit(".csh");
    reveal_strlit(".css");
    reveal_strlit(".csv");
    reveal_strlit(".doc");
    reveal_strlit(".docx");
    reveal_strlit(".eot");
    reveal_strlit(".epub");
    reveal_strlit(".gz");
    reveal_strlit(".gif");
    reveal_strlit(".htm");
    reveal_strlit(".html");
    assert(mime_in(ext, 0) is None);
    assert(mime_table().len() == 77);
    assert(mime_table()[0].0@ == ".aac"@);
    assert(".aac"@.len() != ext.len());
    assert(mime_in(ext, 1) is None);
    assert(mime_table()[1].0@ == ".abw"@);
    assert(".abw"@.len() != ext.len());
    assert(mime_in(ext, 2) is None);
    assert(mime_table()[2].0@ == ".apng"@);
    assert(".apng"@[1] != ext[1]);
    assert(mime_in(ext, 3) is None);
    assert(mime_table()[3].0@ == ".arc"@);
    assert(".arc"@.len() != ext.len());
    assert(mime_in(ext, 4) is None);
    assert(mime_table()[4].0@ == ".avif"@);
    assert(".avif"@[1] != ext[1]);
    assert(mime_in(ext, 5) is None);
    assert(mime_table()[5].0@ == ".avi"@);
    assert(".avi"@.len() != ext.len());
    assert(mime_in(ext, 6) is None);
    assert(mime_table()[6].0@ == ".azw"@);
    assert(".azw"@.len() != ext.len());
    assert(mime_in(ext, 7) is None);
    assert(mime_table()[7].0@ == ".bin"@);
    assert(".bin"@.len() != ext.len());
    assert(mime_in(ext, 8) is None);
    assert(mime_table()[8].0@ == ".bmp"@);
    assert(".bmp"@.len() != ext.len());
    assert(mime_in(ext, 9) is None);
    assert(mime_table()[9].0@ == ".bz"@);
    assert(".bz"@.len() != ext.len());
    assert(mime_in(ext, 10) is None);
    assert(mime_table()[10].0@ == ".bz2"@);
    assert(".bz2"@.len() != ext.len());
    assert(mime_in(ext, 11) is None);
    assert(mime_table()[11].0@ == ".cda"@);
    assert(".cda"@.len() != ext.len());
    assert(mime_in(ext, 12) is None);
    assert(mime_table()[12].0@ == ".csh"@);
    assert(".csh"@.len() != ext.len());
    assert(mime_in(ext, 13) is None);
    assert(mime_table()[13].0@ == ".css"@);
    assert(".css"@.len() != ext.len());
    assert(mime_in(ext, 14) is None);
    assert(mime_table()[14].0@ == ".csv"@);
    assert(".csv"@.len() != ext.len());
    assert(mime_in(ext, 15) is None);
    assert(mime_table()[15].0@ == ".doc"@);
    assert(".doc"@.len() != ext.len());
    assert(mime_in(ext, 16) is None);
    assert(mime_table()[16].0@ == ".docx"@);
    assert(".docx"@[1] != ext[1]);
    assert(mime_in(ext, 17) is None);
    assert(mime_table()[17].0@ == ".eot"@);
    assert(".eot"@.len() != ext.len());
    assert(mime_in(ext, 18) is None);
    assert(mime_table()[18].0@ == ".epub"@);
    assert(".epub"@[1] != ext[1]);
    assert(mime_in(ext, 19) is None);
    assert(mime_table()[19].0@ == ".gz"@);
    assert(".gz"@.len() != ext.len());
    assert(mime_in(ext, 20) is None);
    assert(mime_table()[20].0@ == ".gif"@);
    assert(".gif"@.len() != ext.len());
    assert(mime_in(ext, 21) is None);
    assert(mime_table()[21].0@ == ".htm"@);
    assert(".htm"@.len() != ext.len());
    assert(mime_in(ext, 22) is None);
    assert(mime_table()[22].0@ == ext && mime_table()[22].1@ == "text/html"@);
    assert(mime_in(ext, 23) == Some("text/html"@));
    lemma_mime_found(ext, 23, mime_table().len() as int);
}

/// A file whose name ends in `.html` is of type `text/html`.
pub proof fn lemma_html_file(before: Seq<char>)
    ensures
        mime_of(before + ".html"@) == "text/html"@,
{
    reveal_strlit(".html");
    let suffix = seq!['h', 't', 'm', 'l'];
    assert(before + ".html"@ =~= before.push('.') + suffix);
    assert(!suffix.contains('.'));
    lemma_last_field(before, suffix, '.');
    assert(seq!['.'] + suffix =~= ".html"@);
    lemma_html_row();
}

/// A type found in the first rows of the table is the type found in more.
proof fn lemma_mime_found(ext: Seq<char>, found: int, upto: int)
    requires
        0 <= found <= upto <= mime_table().len(),
        mime_in(ext, found) is Some,
    ensures
        mime_in(ext, upto) == mime_in(ext, found),
    decreases upto - found,
{
    if found < upto {
        lemma_mime_found(ext, found, upto - 1);
    }
}

} // verus!

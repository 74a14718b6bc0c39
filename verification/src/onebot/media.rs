//! How pictures, recordings and videos are named in a message.
use crate::json::option_text;
use crate::runtime::message::option_bytes;
use crate::text::{chars_of, owned, same};
use base64::Engine;
use vstd::prelude::*;
use vstd::string::StringExecFns;
use vstd::utf8::encode_utf8;

verus! {

/// The base64 text, in the standard alphabet with padding, of some bytes.
pub uninterp spec fn base64_text(bytes: Seq<u8>) -> Seq<char>;

/// Calls `base64::engine::general_purpose::STANDARD.encode`, whose result depends
/// on the bytes alone.
#[verifier::external_body]
fn encode_base64(bytes: &Vec<u8>) -> (r: String)
    ensures
        r@ == base64_text(bytes@),
{
    base64::engine::general_purpose::STANDARD.encode(bytes)
}

// ---------------------------------------------------------------------------
// file URIs

/// Whether a byte stands for itself in a file URI.
pub open spec fn is_plain_uri_byte(b: u8) -> bool {
    ||| 65 <= b <= 90
    ||| 97 <= b <= 122
    ||| 48 <= b <= 57
    ||| b == 45
    ||| b == 95
    ||| b == 46
    ||| b == 126
    ||| b == 58
    ||| b == 47
}

/// The upper-case hexadecimal digit of a number below sixteen.
pub open spec fn hex_digit(n: int) -> char {
    if n < 10 {
        (48 + n) as char
    } else {
        (55 + n) as char
    }
}

/// How one byte is written in a file URI.
pub open spec fn uri_byte(b: u8) -> Seq<char> {
    if is_plain_uri_byte(b) {
        seq![b as char]
    } else {
        seq!['%', hex_digit(b as int / 16), hex_digit(b as int % 16)]
    }
}

/// How bytes are written in a file URI.
pub open spec fn uri_bytes(bytes: Seq<u8>) -> Seq<char>
    decreases bytes.len(),
{
    if bytes.len() == 0 {
        Seq::empty()
    } else {
        uri_bytes(bytes.drop_last()) + uri_byte(bytes.last())
    }
}

/// A path with `/` in place of `\`.
pub open spec fn forward_slashes(path: Seq<char>) -> Seq<char> {
    path.map_values(
        |c: char|
            if c == '\\' {
                '/'
            } else {
                c
            },
    )
}

/// The file URI of a local path.
pub open spec fn file_uri(path: Seq<char>) -> Seq<char> {
    let normalized = forward_slashes(path);
    (if normalized.len() > 0 && normalized[0] == '/' {
        "file://"@
    } else {
        "file:///"@
    }) + uri_bytes(encode_utf8(normalized))
}

fn hex_char(n: u8) -> (c: char)
    requires
        n < 16,
    ensures
        c == hex_digit(n as int),
{
    if n < 10 {
        (48u8 + n) as char
    } else {
        (55u8 + n) as char
    }
}

fn push_uri_byte(out: &mut String, b: u8)
    ensures
        final(out)@ == old(out)@ + uri_byte(b),
{
    let plain = (65 <= b && b <= 90) || (97 <= b && b <= 122) || (48 <= b && b <= 57) || b == 45
        || b == 95 || b == 46 || b == 126 || b == 58 || b == 47;
    if plain {
        out.push(b as char);
        assert(out@ =~= old(out)@ + uri_byte(b));
    } else {
        out.push('%');
        out.push(hex_char(b / 16));
        out.push(hex_char(b % 16));
        assert(out@ =~= old(out)@ + uri_byte(b));
    }
}

/// The `file://` URI of a local path. A `\` counts as `/`; bytes outside the
/// plain set are percent-encoded, and the colon of a drive is kept.
pub fn local_file_uri(path: &str) -> (r: String)
    ensures
        r@ == file_uri(path@),
{
    let chars = chars_of(path);
    let mut normalized = String::new();
    let mut i: usize = 0;
    while i < chars.len()
        invariant
            i <= chars@.len(),
            normalized@ == forward_slashes(chars@.take(i as int)),
        decreases chars@.len() - i,
    {
        let c = chars[i];
        let ghost before = chars@.take(i as int);
        assert(chars@.take(i + 1) =~= before.push(c));
        if c == '\\' {
            normalized.push('/');
        } else {
            normalized.push(c);
        }
        assert(normalized@ =~= forward_slashes(chars@.take(i + 1)));
        i = i + 1;
    }
    assert(chars@.take(chars@.len() as int) =~= chars@);
    let rooted = chars.len() > 0 && (chars[0] == '/' || chars[0] == '\\');
    let mut uri = if rooted {
        owned("file://")
    } else {
        owned("file:///")
    };
    let ghost head = uri@;
    let bytes = normalized.as_str().as_bytes();
    let mut k: usize = 0;
    assert(uri@ =~= head + uri_bytes(bytes@.take(0)));
    while k < bytes.len()
        invariant
            k <= bytes@.len(),
            uri@ == head + uri_bytes(bytes@.take(k as int)),
        decreases bytes@.len() - k,
    {
        push_uri_byte(&mut uri, bytes[k]);
        proof {
            let next = bytes@.take(k + 1);
            assert(next.drop_last() =~= bytes@.take(k as int));
            assert(uri@ =~= head + uri_bytes(next));
        }
        k = k + 1;
    }
    assert(bytes@.take(bytes@.len() as int) =~= bytes@);
    uri
}

// ---------------------------------------------------------------------------
// media values

/// What is known of a local file that a message names.
#[derive(Debug)]
pub struct LocalFile {
    pub path: String,
    /// Whether the path names a file.
    pub is_file: bool,
    /// The content, where it could be read.
    pub bytes: Option<Vec<u8>>,
}

/// The local files that the messages at hand name.
#[derive(Debug)]
pub struct MediaFiles {
    /// Hand the path over in place of the content, for an implementation on the
    /// same machine.
    pub send_as_file: bool,
    pub files: Vec<LocalFile>,
}

/// The first entry for a path.
pub open spec fn local_file(files: Seq<LocalFile>, path: Seq<char>) -> Option<LocalFile>
    decreases files.len(),
{
    if files.len() == 0 {
        None
    } else if files[0].path@ == path {
        Some(files[0])
    } else {
        local_file(files.subrange(1, files.len() as int), path)
    }
}

/// How the content of a medium is written in a message: its URL, else its bytes
/// in base64, else its local file.
pub open spec fn media_text(
    url: Option<Seq<char>>,
    file: Option<Seq<char>>,
    data: Option<Seq<u8>>,
    media: MediaFiles,
) -> Seq<char> {
    match (url, data, file) {
        (Some(url), _, _) => url,
        (None, Some(data), _) => "base64://"@ + base64_text(data),
        (None, None, None) => Seq::empty(),
        (None, None, Some(file)) => match local_file(media.files@, file) {
            Some(entry) => if media.send_as_file && entry.is_file {
                file_uri(file)
            } else {
                match entry.bytes {
                    Some(bytes) => "base64://"@ + base64_text(bytes@),
                    None => file,
                }
            },
            None => file,
        },
    }
}

impl MediaFiles {
    /// No local file is at hand.
    pub fn none() -> (r: MediaFiles)
        ensures
            r.files@ == Seq::<LocalFile>::empty(),
            !r.send_as_file,
    {
        MediaFiles { send_as_file: false, files: Vec::new() }
    }

    fn find(&self, path: &str) -> (r: Option<usize>)
        ensures
            match r {
                Some(i) => i < self.files@.len() && local_file(self.files@, path@) == Some(
                    self.files@[i as int],
                ),
                None => local_file(self.files@, path@) is None,
            },
    {
        let ghost all = self.files@;
        let mut i: usize = 0;
        assert(all.subrange(0, all.len() as int) =~= all);
        while i < self.files.len()
            invariant
                i <= self.files@.len(),
                all == self.files@,
                local_file(all, path@) == local_file(
                    all.subrange(i as int, all.len() as int),
                    path@,
                ),
            decreases self.files@.len() - i,
        {
            let ghost rest = all.subrange(i as int, all.len() as int);
            if same(self.files[i].path.as_str(), path) {
                return Some(i);
            }
            assert(rest.subrange(1, rest.len() as int) =~= all.subrange(i + 1, all.len() as int));
            i = i + 1;
        }
        None
    }
}

fn base64_uri(bytes: &Vec<u8>) -> (r: String)
    ensures
        r@ == "base64://"@ + base64_text(bytes@),
{
    let mut out = owned("base64://");
    out.append(encode_base64(bytes).as_str());
    out
}

/// How the content of a medium is written in a message: its URL, else its bytes
/// in base64, else its local file. A file that cannot be read is named by its
/// path.
pub fn media_value(
    url: &Option<String>,
    file: &Option<String>,
    data: &Option<Vec<u8>>,
    media: &MediaFiles,
) -> (r: String)
    ensures
        r@ == media_text(
            option_text(*url),
            option_text(*file),
            option_bytes(*data),
            *media,
        ),
{
    if let Some(url) = url {
        return url.clone();
    }
    if let Some(data) = data {
        return base64_uri(data);
    }
    match file {
        None => String::new(),
        Some(file) => match media.find(file.as_str()) {
            Some(i) => {
                let entry = &media.files[i];
                if media.send_as_file && entry.is_file {
                    local_file_uri(file.as_str())
                } else {
                    match &entry.bytes {
                        Some(bytes) => base64_uri(bytes),
                        None => file.clone(),
                    }
                }
            },
            None => file.clone(),
        },
    }
}

/// A medium with an address is sent by it, whatever else it has; else its bytes are sent;
/// else a local file is named by its URI where files are sent so, and else sent by its
/// bytes; and a file that is not at hand is named as it is.
pub proof fn law_media_are_sent_by_the_best_way(
    url: Seq<char>,
    path: Seq<char>,
    bytes: Seq<u8>,
    file: Option<Seq<char>>,
    data: Option<Seq<u8>>,
    media: MediaFiles,
)
    ensures
        media_text(Some(url), file, data, media) == url,
        media_text(None, file, Some(bytes), media) == "base64://"@ + base64_text(bytes),
        media_text(None, None, None, media).len() == 0,
        local_file(media.files@, path) is None ==> media_text(None, Some(path), None, media)
            == path,
        local_file(media.files@, path) matches Some(entry) ==> {
            &&& media.send_as_file && entry.is_file ==> media_text(None, Some(path), None, media)
                == file_uri(path)
            &&& !(media.send_as_file && entry.is_file) && entry.bytes is Some ==> media_text(
                None,
                Some(path),
                None,
                media,
            ) == "base64://"@ + base64_text(entry.bytes->0@)
            &&& !(media.send_as_file && entry.is_file) && entry.bytes is None ==> media_text(
                None,
                Some(path),
                None,
                media,
            ) == path
        },
{
}

/// What is known of a local file is the first entry with its path.
pub proof fn law_local_files_are_found(files: Seq<LocalFile>, i: int)
    requires
        0 <= i < files.len(),
        forall|k: int| 0 <= k < i ==> (#[trigger] files[k]).path@ != files[i].path@,
    ensures
        local_file(files, files[i].path@) == Some(files[i]),
    decreases files.len(),
{
    if i > 0 {
        let rest = files.subrange(1, files.len() as int);
        assert(rest[i - 1] == files[i]);
        assert forall|k: int| 0 <= k < i - 1 implies (#[trigger] rest[k]).path@ != rest[i - 1].path@ by {
            assert(rest[k] == files[k + 1]);
        }
        law_local_files_are_found(rest, i - 1);
        assert(files[0].path@ != files[i].path@);
    }
}

proof fn lemma_uri_from_the_front(bytes: Seq<u8>)
    requires
        bytes.len() > 0,
    ensures
        uri_bytes(bytes) == uri_byte(bytes[0]) + uri_bytes(bytes.subrange(1, bytes.len() as int)),
    decreases bytes.len(),
{
    let rest = bytes.subrange(1, bytes.len() as int);
    if bytes.len() == 1 {
        assert(uri_bytes(bytes.drop_last()) =~= Seq::<char>::empty());
        assert(uri_bytes(rest) =~= Seq::<char>::empty());
        assert(uri_bytes(bytes) =~= uri_byte(bytes[0]) + uri_bytes(rest));
    } else {
        lemma_uri_from_the_front(bytes.drop_last());
        assert(bytes.drop_last().subrange(1, bytes.len() - 1) =~= rest.drop_last());
        assert(uri_bytes(bytes) =~= uri_byte(bytes[0]) + uri_bytes(rest));
    }
}

proof fn lemma_uri_bytes_differ(a: u8, x: Seq<char>, b: u8, y: Seq<char>)
    requires
        uri_byte(a) + x == uri_byte(b) + y,
    ensures
        a == b,
        x == y,
{
    let one = uri_byte(a) + x;
    let other = uri_byte(b) + y;
    assert(one[0] == uri_byte(a)[0] && other[0] == uri_byte(b)[0]);
    assert(is_plain_uri_byte(a) <==> one[0] != '%');
    assert(is_plain_uri_byte(b) <==> other[0] != '%');
    if is_plain_uri_byte(a) {
        assert(one[0] as int == a as int && other[0] as int == b as int);
    } else {
        let (ah, al) = (a as int / 16, a as int % 16);
        let (bh, bl) = (b as int / 16, b as int % 16);
        assert(one[1] == hex_digit(ah) && other[1] == hex_digit(bh));
        assert(one[2] == hex_digit(al) && other[2] == hex_digit(bl));
        assert(0 <= ah < 16 && 0 <= bh < 16 && 0 <= al < 16 && 0 <= bl < 16);
        assert(ah == bh && al == bl);
    }
    assert(x =~= one.skip(uri_byte(a).len() as int));
    assert(y =~= other.skip(uri_byte(b).len() as int));
}

/// A file URI tells files apart: the bytes of a path can be read out of it.
pub proof fn law_uris_tell_files_apart(a: Seq<u8>, b: Seq<u8>)
    requires
        uri_bytes(a) == uri_bytes(b),
    ensures
        a == b,
    decreases a.len(),
{
    if a.len() > 0 {
        lemma_uri_from_the_front(a);
        assert(uri_byte(a[0]).len() > 0);
    }
    if b.len() > 0 {
        lemma_uri_from_the_front(b);
        assert(uri_byte(b[0]).len() > 0);
    }
    if a.len() > 0 && b.len() > 0 {
        let (x, y) = (a.subrange(1, a.len() as int), b.subrange(1, b.len() as int));
        lemma_uri_bytes_differ(a[0], uri_bytes(x), b[0], uri_bytes(y));
        law_uris_tell_files_apart(x, y);
        assert(a =~= seq![a[0]] + x);
        assert(b =~= seq![b[0]] + y);
    } else {
        assert(a =~= b);
    }
}

} // verus!

//! What a cached file is named: its hash, its size, its resolution and its type.
use vstd::array::array_as_slice;
use vstd::prelude::*;
use vstd::slice::slice_subrange;
use vstd::string::*;

use crate::digest::{hex_decode_hash, hex_encode};
use crate::text::{chars_of, parse_u64, push_u64, same_text, split, string_of};

verus! {

/// The kinds of files that the network knows. Another kind keeps its tag.
#[derive(Hash, PartialEq, Eq)]
pub enum FileType {
    Jpeg,
    Png,
    Gif,
    Mp4,
    Webm,
    Webp,
    Avif,
    Jpegxl,
    Other(String),
}

/// Whether a character may stand in a name of a media type.
pub open spec fn media_char(c: char) -> bool {
    'a' <= c <= 'z' || 'A' <= c <= 'Z' || '0' <= c <= '9' || c == '-'
}

/// Whether a text is two names with a slash between them, the second perhaps empty.
pub open spec fn is_media_type(s: Seq<char>) -> bool {
    exists|slash: int|
        0 < slash < s.len() && #[trigger] s[slash] == '/' && (forall|i: int|
            0 <= i < s.len() && i != slash ==> media_char(#[trigger] s[i]))
}

/// `mime::Mime` read from a text with `str::parse` and written again: a plain media type is
/// accepted, and comes back in small letters.
#[verifier::external_body]
fn mime_text(s: &str) -> (r: String)
    requires
        is_media_type(s@),
    ensures
        r@ == crate::text::ascii_lower_seq(s@),
{
    s.parse::<mime::Mime>().unwrap().to_string()
}

impl Clone for FileType {
    fn clone(&self) -> (r: FileType)
        ensures
            r.tag() == self.tag(),
            self.wf() ==> r.wf(),
            r.media() == self.media(),
    {
        match self {
            FileType::Jpeg => FileType::Jpeg,
            FileType::Png => FileType::Png,
            FileType::Gif => FileType::Gif,
            FileType::Mp4 => FileType::Mp4,
            FileType::Webm => FileType::Webm,
            FileType::Webp => FileType::Webp,
            FileType::Avif => FileType::Avif,
            FileType::Jpegxl => FileType::Jpegxl,
            FileType::Other(s) => FileType::Other(s.clone()),
        }
    }
}

impl FileType {
    /// The tag that stands for the type in a file's name.
    pub open spec fn tag(&self) -> Seq<char> {
        match self {
            FileType::Jpeg => "jpg"@,
            FileType::Png => "png"@,
            FileType::Gif => "gif"@,
            FileType::Mp4 => "mp4"@,
            FileType::Webm => "wbm"@,
            FileType::Webp => "wbp"@,
            FileType::Avif => "avf"@,
            FileType::Jpegxl => "jxl"@,
            FileType::Other(s) => s@,
        }
    }

    /// Whether a tag has a type of its own.
    pub open spec fn known(tag: Seq<char>) -> bool {
        tag == "jpg"@ || tag == "png"@ || tag == "gif"@ || tag == "mp4"@ || tag == "wbm"@ || tag
            == "wbp"@ || tag == "avf"@ || tag == "jxl"@
    }

    /// A known tag never hides in `Other`.
    pub open spec fn wf(&self) -> bool {
        self matches FileType::Other(s) ==> !FileType::known(s@)
    }

    /// The media type that a browser is told.
    pub open spec fn media(&self) -> Seq<char> {
        match self {
            FileType::Jpeg => "image/jpeg"@,
            FileType::Png => "image/png"@,
            FileType::Gif => "image/gif"@,
            FileType::Mp4 => "video/mp4"@,
            FileType::Webm => "video/webm"@,
            FileType::Webp => "image/webp"@,
            FileType::Avif => "image/avif"@,
            FileType::Jpegxl => "image/jxl"@,
            FileType::Other(_) => "application/octet-stream"@,
        }
    }

    /// The type that a tag stands for.
    pub fn from_tag(s: &str) -> (r: FileType)
        ensures
            r.tag() == s@,
            r.wf(),
    {
        if same_text(s, "jpg") {
            FileType::Jpeg
        } else if same_text(s, "png") {
            FileType::Png
        } else if same_text(s, "gif") {
            FileType::Gif
        } else if same_text(s, "mp4") {
            FileType::Mp4
        } else if same_text(s, "wbm") {
            FileType::Webm
        } else if same_text(s, "wbp") {
            FileType::Webp
        } else if same_text(s, "avf") {
            FileType::Avif
        } else if same_text(s, "jxl") {
            FileType::Jpegxl
        } else {
            FileType::Other(s.to_owned())
        }
    }

    /// The tag that stands for the type.
    pub fn as_str(&self) -> (r: &str)
        ensures
            r@ == self.tag(),
    {
        match self {
            FileType::Jpeg => "jpg",
            FileType::Png => "png",
            FileType::Gif => "gif",
            FileType::Mp4 => "mp4",
            FileType::Webm => "wbm",
            FileType::Webp => "wbp",
            FileType::Avif => "avf",
            FileType::Jpegxl => "jxl",
            FileType::Other(s) => s.as_str(),
        }
    }

    /// The media type that a browser is told.
    pub fn to_mime(&self) -> (r: String)
        ensures
            r@ == self.media(),
    {
        let s = match self {
            FileType::Jpeg => "image/jpeg",
            FileType::Png => "image/png",
            FileType::Gif => "image/gif",
            FileType::Mp4 => "video/mp4",
            FileType::Webm => "video/webm",
            FileType::Webp => "image/webp",
            FileType::Avif => "image/avif",
            FileType::Jpegxl => "image/jxl",
            FileType::Other(_) => "application/octet-stream",
        };
        proof {
            lemma_media_types();
            assert(s@ == self.media());
        }
        mime_text(s)
    }
}

/// The media types used here are plain, and in small letters.
proof fn lemma_media_types()
    ensures
        forall|t: FileType|
            #![trigger t.media()]
            is_media_type(t.media()) && crate::text::ascii_lower_seq(t.media()) == t.media(),
{
    reveal_strlit("image/jpeg");
    reveal_strlit("image/png");
    reveal_strlit("image/gif");
    reveal_strlit("video/mp4");
    reveal_strlit("video/webm");
    reveal_strlit("image/webp");
    reveal_strlit("image/avif");
    reveal_strlit("image/jxl");
    reveal_strlit("application/octet-stream");
    assert forall|t: FileType|
        #![trigger t.media()]
        is_media_type(t.media()) && crate::text::ascii_lower_seq(t.media()) == t.media() by {
        let slash: int = if t is Other { 11 } else { 5 };
        assert(t.media()[slash] == '/');
        assert(crate::text::ascii_lower_seq(t.media()) =~= t.media());
    }
}

/// What a file's name says.
#[verifier::ext_equal]
pub struct FileId {
    pub hash: Seq<u8>,
    pub size: u32,
    pub xres: u32,
    pub yres: u32,
    pub tag: Seq<char>,
}

impl FileId {
    /// Whether a file's name can say this.
    pub open spec fn valid(self) -> bool {
        self.hash.len() == 20 && !self.tag.contains('-')
    }

    /// The pieces of a file's name. A file without a width has no resolution in its name.
    pub open spec fn pieces(self) -> Seq<Seq<char>> {
        if self.xres > 0 {
            seq![
                crate::digest::hex_seq(self.hash),
                crate::text::decimal(self.size as nat),
                crate::text::decimal(self.xres as nat),
                crate::text::decimal(self.yres as nat),
                self.tag,
            ]
        } else {
            seq![crate::digest::hex_seq(self.hash), crate::text::decimal(self.size as nat), self.tag]
        }
    }

    /// What is left of a file in its name: a height without a width is not.
    pub open spec fn stored(self) -> FileId {
        FileId {
            yres: if self.xres > 0 {
                self.yres
            } else {
                0
            },
            ..self
        }
    }

    /// The name of the file.
    pub open spec fn name(self) -> Seq<char> {
        crate::text::join_seq(self.pieces(), seq!['-'])
    }

    /// The number that the four digits of the range stand for.
    pub open spec fn key(self) -> int {
        self.hash[0] * 256 + self.hash[1]
    }

    /// The part of the network's files that this one belongs to.
    pub open spec fn range(self) -> Seq<char> {
        crate::digest::hex_seq(self.hash.take(2))
    }
}

/// What a file identifier says: hash, size, width, height and type with hyphens between them, or
/// hash, size and type. What follows the type is ignored.
pub open spec fn parse_file_id(id: Seq<char>) -> Option<FileId> {
    let parts = crate::text::split_seq(id, '-');
    if parts.len() == 3 {
        match crate::text::parse_unsigned(parts[1], u32::MAX as nat) {
            Some(size) if crate::digest::is_hex(parts[0], 20) => Some(
                FileId {
                    hash: crate::digest::hex_bytes(parts[0]),
                    size: size as u32,
                    xres: 0,
                    yres: 0,
                    tag: parts[2],
                },
            ),
            _ => None,
        }
    } else if parts.len() >= 5 {
        match (
            crate::text::parse_unsigned(parts[1], u32::MAX as nat),
            crate::text::parse_unsigned(parts[2], u32::MAX as nat),
            crate::text::parse_unsigned(parts[3], u32::MAX as nat),
        ) {
            (Some(size), Some(xres), Some(yres)) if crate::digest::is_hex(parts[0], 20) => Some(
                FileId {
                    hash: crate::digest::hex_bytes(parts[0]),
                    size: size as u32,
                    xres: xres as u32,
                    yres: yres as u32,
                    tag: parts[4],
                },
            ),
            _ => None,
        }
    } else {
        None
    }
}

/// What is known of a cached file from its name.
#[derive(Hash, PartialEq, Eq)]
pub struct CacheFileInfo {
    hash: [u8; 20],
    size: u32,
    xres: u32,
    yres: u32,
    mime_type: FileType,
}

impl View for CacheFileInfo {
    type V = FileId;

    closed spec fn view(&self) -> FileId {
        FileId {
            hash: self.hash@,
            size: self.size,
            xres: self.xres,
            yres: self.yres,
            tag: self.mime_type.tag(),
        }
    }
}

/// Where a file lies below the cache directory: two directories and its name.
pub struct CachePath {
    pub first: String,
    pub second: String,
    pub name: String,
}

fn parse_u32(s: &str) -> (r: Option<u32>)
    ensures
        match r {
            Some(v) => crate::text::parse_unsigned(s@, u32::MAX as nat) == Some(v as nat),
            None => crate::text::parse_unsigned(s@, u32::MAX as nat) is None,
        },
{
    match parse_u64(s, u32::MAX as u64) {
        Some(v) => Some(v as u32),
        None => None,
    }
}

impl Clone for CacheFileInfo {
    fn clone(&self) -> (r: CacheFileInfo)
        ensures
            r@ == self@,
    {
        proof {
            use_type_invariant(self);
        }
        CacheFileInfo {
            hash: self.hash,
            size: self.size,
            xres: self.xres,
            yres: self.yres,
            mime_type: self.mime_type.clone(),
        }
    }
}

impl CacheFileInfo {
    #[verifier::type_invariant]
    closed spec fn inv(self) -> bool {
        self.mime_type.wf() && !self.mime_type.tag().contains('-')
    }

    /// The media type of the file.
    pub closed spec fn media(&self) -> Seq<char> {
        self.mime_type.media()
    }

    /// Reads a file identifier.
    pub fn from_file_id(id: &str) -> (r: Option<CacheFileInfo>)
        ensures
            match r {
                Some(info) => parse_file_id(id@) == Some(info@) && info@.valid() && info.media()
                    == media_of(info@.tag),
                None => parse_file_id(id@) is None,
            },
    {
        let parts = split(id, '-');
        let ghost pieces = crate::text::split_seq(id@, '-');
        let n = parts.len();
        proof {
            assert(crate::text::texts(parts@).len() == parts@.len());
            assert(forall|i: int| 0 <= i < n ==> pieces[i] == #[trigger] parts@[i]@);
            crate::text::split_pieces_hold_no_separator(id@, '-');
        }
        if n != 3 && n < 5 {
            return None;
        }
        let hash = match hex_decode_hash(parts[0].as_str()) {
            Some(hash) => hash,
            None => {
                return None;
            },
        };
        let size: u32 = match parse_u32(parts[1].as_str()) {
            Some(size) => size,
            None => {
                return None;
            },
        };
        let mut xres: u32 = 0;
        let mut yres: u32 = 0;
        let mut last: usize = 2;
        if n != 3 {
            match (parse_u32(parts[2].as_str()), parse_u32(parts[3].as_str())) {
                (Some(x), Some(y)) => {
                    xres = x;
                    yres = y;
                    last = 4;
                },
                _ => {
                    return None;
                },
            }
        }
        let mime_type = FileType::from_tag(parts[last].as_str());
        assert(!pieces[last as int].contains('-'));
        proof {
            lemma_media_of(mime_type);
        }
        let info = CacheFileInfo { hash, size, xres, yres, mime_type };
        assert(parse_file_id(id@)->0 =~= info@);
        Some(info)
    }

    /// Get the cache file's size.
    pub fn size(&self) -> (r: u32)
        ensures
            r == self@.size,
    {
        self.size
    }

    /// The SHA-1 digest that the file must have.
    pub fn hash(&self) -> (r: [u8; 20])
        ensures
            r@ == self@.hash,
    {
        self.hash
    }

    /// The name of the file.
    pub fn file_name(&self) -> (r: String)
        ensures
            r@ == self@.name(),
    {
        let mut name = hex_encode(array_as_slice(&self.hash));
        let ghost id = self@;
        let ghost p = id.pieces();
        proof {
            reveal_with_fuel(crate::text::join_seq, 6);
            assert(p.drop_last() =~= p.take(p.len() - 1));
            assert(p.drop_last().drop_last() =~= p.take(p.len() - 2));
        }
        name.push('-');
        push_u64(&mut name, self.size as u64);
        if self.xres > 0 {
            assert(p.take(4).drop_last() =~= p.take(3));
            assert(p.take(3).drop_last() =~= p.take(2));
            assert(p.take(2).drop_last() =~= p.take(1));
            name.push('-');
            push_u64(&mut name, self.xres as u64);
            name.push('-');
            push_u64(&mut name, self.yres as u64);
        } else {
            assert(p.take(2).drop_last() =~= p.take(1));
        }
        name.push('-');
        name.append(self.mime_type.as_str());
        assert(name@ =~= id.name());
        name
    }

    /// Where the file lies below the cache directory.
    pub fn to_path(&self) -> (r: CachePath)
        ensures
            r.first@ == crate::digest::hex_seq(self@.hash).subrange(0, 2),
            r.second@ == crate::digest::hex_seq(self@.hash).subrange(2, 4),
            r.name@ == self@.name(),
    {
        let hash = hex_encode(array_as_slice(&self.hash));
        let chars = chars_of(hash.as_str());
        CachePath {
            first: string_of(&chars, 0, 2),
            second: string_of(&chars, 2, 4),
            name: self.file_name(),
        }
    }

    /// The part of the network's files that this one belongs to.
    pub fn static_range(&self) -> (r: String)
        ensures
            r@ == self@.range(),
            r@.len() == 4,
    {
        let start = slice_subrange(array_as_slice(&self.hash), 0, 2);
        assert(start@ =~= self.hash@.take(2));
        hex_encode(start)
    }

    /// The number that the four digits of the range stand for.
    pub fn range_key(&self) -> (r: u16)
        ensures
            r == self@.key(),
    {
        self.hash[0] as u16 * 256 + self.hash[1] as u16
    }

    /// The media type of the file.
    pub fn mime_type(&self) -> (r: String)
        ensures
            r@ == self.media(),
            self.media() == media_of(self@.tag),
    {
        proof {
            use_type_invariant(self);
            lemma_media_of(self.mime_type);
        }
        self.mime_type.to_mime()
    }
}

/// The media type that a tag stands for.
pub open spec fn media_of(tag: Seq<char>) -> Seq<char> {
    if tag == "jpg"@ {
        "image/jpeg"@
    } else if tag == "png"@ {
        "image/png"@
    } else if tag == "gif"@ {
        "image/gif"@
    } else if tag == "mp4"@ {
        "video/mp4"@
    } else if tag == "wbm"@ {
        "video/webm"@
    } else if tag == "wbp"@ {
        "image/webp"@
    } else if tag == "avf"@ {
        "image/avif"@
    } else if tag == "jxl"@ {
        "image/jxl"@
    } else {
        "application/octet-stream"@
    }
}

proof fn lemma_media_of(t: FileType)
    requires
        t.wf(),
    ensures
        t.media() == media_of(t.tag()),
{
    reveal_strlit("jpg");
    reveal_strlit("png");
    reveal_strlit("gif");
    reveal_strlit("mp4");
    reveal_strlit("wbm");
    reveal_strlit("wbp");
    reveal_strlit("avf");
    reveal_strlit("jxl");
    assert("jpg"@[1] == 'p' && "png"@[1] == 'n' && "gif"@[0] == 'g' && "mp4"@[0] == 'm');
    assert("jpg"@[0] == 'j' && "png"@[0] == 'p' && "wbm"@[2] == 'm' && "wbp"@[2] == 'p');
    assert("avf"@[0] == 'a' && "jxl"@[1] == 'x' && "jxl"@[0] == 'j' && "wbm"@[0] == 'w' && "wbp"@[0]
        == 'w');
}

proof fn lemma_no_hyphen(v: FileId)
    requires
        v.valid(),
    ensures
        forall|i: int| 0 <= i < v.pieces().len() ==> !(#[trigger] v.pieces()[i]).contains('-'),
{
    crate::text::lemma_digits_of_decimal(v.size as nat);
    crate::text::lemma_digits_of_decimal(v.xres as nat);
    crate::text::lemma_digits_of_decimal(v.yres as nat);
    assert forall|i: int| 0 <= i < v.pieces().len() implies !(#[trigger] v.pieces()[i]).contains('-') by {
        if v.pieces()[i].contains('-') {
            let k = v.pieces()[i].index_of('-');
            assert(v.pieces()[i][k] == '-');
        }
    }
}

/// A file's name says what it was made from, but for a height without a width.
pub proof fn name_reads_back(v: FileId)
    requires
        v.valid(),
    ensures
        parse_file_id(v.name()) == Some(v.stored()),
        v.stored().name() == v.name(),
{
    lemma_no_hyphen(v);
    crate::text::split_of_join(v.pieces(), '-');
    crate::text::lemma_parse_decimal(v.size as nat, u32::MAX as nat);
    crate::text::lemma_parse_decimal(v.xres as nat, u32::MAX as nat);
    crate::text::lemma_parse_decimal(v.yres as nat, u32::MAX as nat);
    crate::digest::hex_round_trip(v.hash);
    assert(v.stored().pieces() =~= v.pieces());
}

/// Whatever the identifier a file was asked by, it is found again under the name it was stored by:
/// with its hash, its size, its type and its place.
pub proof fn stored_file_is_found(id: Seq<char>)
    ensures
        parse_file_id(id) matches Some(v) ==> (parse_file_id(v.name()) matches Some(w) && w.hash
            == v.hash && w.size == v.size && w.tag == v.tag && w.name() == v.name() && w.key()
            == v.key()),
{
    if parse_file_id(id) is Some {
        parsed_file_is_valid(id);
        name_reads_back(parse_file_id(id)->0);
    }
}

/// Files with the same name are the same file: its hash, its size and its type are the same.
pub proof fn same_name_same_file(v: FileId, w: FileId)
    requires
        v.valid(),
        w.valid(),
        v.name() == w.name(),
    ensures
        v.stored() == w.stored(),
{
    name_reads_back(v);
    name_reads_back(w);
}

/// Whatever an identifier says can be said by a file's name.
pub proof fn parsed_file_is_valid(id: Seq<char>)
    ensures
        parse_file_id(id) matches Some(v) ==> v.valid(),
{
    crate::text::split_pieces_hold_no_separator(id, '-');
    if parse_file_id(id) is Some {
        assert(parse_file_id(id)->0.hash.len() == 20);
    }
}

/// The four digits of a range.
pub open spec fn range_of_key(key: u16) -> Seq<char> {
    crate::digest::hex_seq(seq![(key / 256) as u8, (key % 256) as u8])
}

/// The four digits of a range.
pub fn range_text(key: u16) -> (r: String)
    ensures
        r@ == range_of_key(key),
        r@.len() == 4,
{
    let mut bytes: Vec<u8> = Vec::new();
    bytes.push((key / 256) as u8);
    bytes.push((key % 256) as u8);
    assert(bytes@ =~= seq![(key / 256) as u8, (key % 256) as u8]);
    hex_encode(bytes.as_slice())
}

/// A range and its number say the same.
pub proof fn range_is_key(v: FileId)
    requires
        v.valid(),
    ensures
        0 <= v.key() <= u16::MAX,
        range_of_key(v.key() as u16) == v.range(),
{
    assert(seq![(v.key() as u16 / 256) as u8, (v.key() as u16 % 256) as u8] =~= v.hash.take(2));
}

/// A file lies in the two directories that its range names.
pub proof fn path_follows_range(v: FileId)
    requires
        v.valid(),
    ensures
        crate::digest::hex_seq(v.hash).subrange(0, 2) + crate::digest::hex_seq(v.hash).subrange(2, 4)
            == v.range(),
{
    assert(crate::digest::hex_seq(v.hash).subrange(0, 2) + crate::digest::hex_seq(v.hash).subrange(2, 4)
        =~= v.range());
}

/// A known type is told by its tag: an image or a video, whose kind begins and ends with the letters that the
/// tag begins and ends with; anything else is told as a row of bytes.
pub proof fn media_type_follows_tag(tag: Seq<char>)
    ensures
        ({
            let media = media_of(tag);
            let known = FileType::known(tag);
            &&& !known <==> media == "application/octet-stream"@
            &&& known ==> tag.len() == 3 && media.len() > 6 && media[5] == '/' && media[6] == tag[0]
                && media.last() == tag[2]
            &&& known ==> media.take(5) == if tag == "mp4"@ || tag == "wbm"@ {
                "video"@
            } else {
                "image"@
            }
        }),
{
    lemma_tags();
    reveal_strlit("image/jpeg");
    reveal_strlit("image/png");
    reveal_strlit("image/gif");
    reveal_strlit("video/mp4");
    reveal_strlit("video/webm");
    reveal_strlit("image/webp");
    reveal_strlit("image/avif");
    reveal_strlit("image/jxl");
    reveal_strlit("application/octet-stream");
    reveal_strlit("video");
    reveal_strlit("image");
    let media = media_of(tag);
    assert(FileType::known(tag) ==> media[0] != 'a');
    assert("application/octet-stream"@[0] == 'a');
    if FileType::known(tag) {
        assert(media.take(5) =~= if tag == "mp4"@ || tag == "wbm"@ {
            "video"@
        } else {
            "image"@
        });
    }
}

proof fn lemma_tags()
    ensures
        "jpg"@ == seq!['j', 'p', 'g'],
        "png"@ == seq!['p', 'n', 'g'],
        "gif"@ == seq!['g', 'i', 'f'],
        "mp4"@ == seq!['m', 'p', '4'],
        "wbm"@ == seq!['w', 'b', 'm'],
        "wbp"@ == seq!['w', 'b', 'p'],
        "avf"@ == seq!['a', 'v', 'f'],
        "jxl"@ == seq!['j', 'x', 'l'],
{
    reveal_strlit("jpg");
    reveal_strlit("png");
    reveal_strlit("gif");
    reveal_strlit("mp4");
    reveal_strlit("wbm");
    reveal_strlit("wbp");
    reveal_strlit("avf");
    reveal_strlit("jxl");
    assert("jpg"@ =~= seq!['j', 'p', 'g']);
    assert("png"@ =~= seq!['p', 'n', 'g']);
    assert("gif"@ =~= seq!['g', 'i', 'f']);
    assert("mp4"@ =~= seq!['m', 'p', '4']);
    assert("wbm"@ =~= seq!['w', 'b', 'm']);
    assert("wbp"@ =~= seq!['w', 'b', 'p']);
    assert("avf"@ =~= seq!['a', 'v', 'f']);
    assert("jxl"@ =~= seq!['j', 'x', 'l']);
}

/// What follows the type of a file with a resolution is ignored; a file without one has nothing behind its
/// type.
pub proof fn rest_of_identifier_is_ignored(v: FileId, rest: Seq<char>)
    requires
        v.valid(),
    ensures
        v.xres > 0 ==> parse_file_id(v.name() + seq!['-'] + rest) == Some(v),
        v.xres == 0 && !rest.contains('-') ==> parse_file_id(v.name() + seq!['-'] + rest) is None,
{
    lemma_no_hyphen(v);
    let more = crate::text::split_seq(rest, '-');
    crate::text::lemma_split_nonempty(rest, '-');
    crate::text::split_pieces_hold_no_separator(rest, '-');
    crate::text::join_of_split(rest, '-');
    let all = v.pieces() + more;
    assert forall|i: int| 0 <= i < all.len() implies !(#[trigger] all[i]).contains('-') by {
        if i < v.pieces().len() {
            assert(all[i] == v.pieces()[i]);
        } else {
            assert(all[i] == more[i - v.pieces().len()]);
        }
    }
    crate::text::split_of_join(all, '-');
    crate::text::join_of_both(v.pieces(), more, seq!['-']);
    crate::text::lemma_parse_decimal(v.size as nat, u32::MAX as nat);
    crate::text::lemma_parse_decimal(v.xres as nat, u32::MAX as nat);
    crate::text::lemma_parse_decimal(v.yres as nat, u32::MAX as nat);
    crate::digest::hex_round_trip(v.hash);
    if v.xres > 0 {
        assert(parse_file_id(v.name() + seq!['-'] + rest)->0 =~= v);
    } else if !rest.contains('-') {
        let one = seq![rest];
        assert forall|i: int| 0 <= i < one.len() implies !(#[trigger] one[i]).contains('-') by {}
        crate::text::split_of_join(one, '-');
        assert(more =~= one);
    }
}

/// An identifier names a file only where it begins with forty hexadecimal digits, which are the file's hash,
/// and a hyphen.
pub proof fn identifier_begins_with_hash(id: Seq<char>)
    ensures
        parse_file_id(id) matches Some(v) ==> id.len() > 40 && id[40] == '-' && crate::digest::is_hex(
            id.take(40),
            20,
        ) && crate::digest::hex_bytes(id.take(40)) == v.hash,
{
    if parse_file_id(id) is Some {
        let parts = crate::text::split_seq(id, '-');
        crate::text::join_of_split(id, '-');
        crate::text::join_begins_with_first(parts, '-');
        let start = parts[0].push('-');
        assert(id.subrange(0, 41) == start);
        assert(id[40] == id.subrange(0, 41)[40]);
        assert(id.take(40) =~= parts[0]) by {
            assert forall|i: int| 0 <= i < 40 implies id[i] == parts[0][i] by {
                assert(id.subrange(0, 41)[i] == id[i]);
            }
        }
    }
}

/// A file lies in two directories of two digits each, which together are its range, under the name by which it
/// is found again.
pub proof fn file_is_found_at_its_path(info: &CacheFileInfo, path: CachePath, range: String, key: u16)
    requires
        call_ensures(CacheFileInfo::to_path, (info,), path),
        call_ensures(CacheFileInfo::static_range, (info,), range),
        call_ensures(CacheFileInfo::range_key, (info,), key),
        info@.valid(),
    ensures
        path.first@.len() == 2 && path.second@.len() == 2,
        path.first@ + path.second@ == range@,
        parse_file_id(path.name@) == Some(info@.stored()),
        crate::digest::hex_bytes(range@) == info@.hash.take(2),
        key == info@.hash[0] * 256 + info@.hash[1],
{
    path_follows_range(info@);
    name_reads_back(info@);
    crate::digest::hex_round_trip(info@.hash.take(2));
}

/// What the name of a file says is told of the file: its hash, its size, and its type.
pub proof fn named_file_is_told(
    text: &str,
    v: FileId,
    r: Option<CacheFileInfo>,
    size: u32,
    hash: [u8; 20],
    media: String,
    name: String,
)
    requires
        v.valid(),
        text@ == v.name(),
        call_ensures(CacheFileInfo::from_file_id, (text,), r),
        r matches Some(info) ==> call_ensures(CacheFileInfo::size, (&info,), size) && call_ensures(
            CacheFileInfo::hash,
            (&info,),
            hash,
        ) && call_ensures(CacheFileInfo::mime_type, (&info,), media) && call_ensures(
            CacheFileInfo::file_name,
            (&info,),
            name,
        ),
    ensures
        r is Some,
        size == v.size && hash@ == v.hash && media@ == media_of(v.tag) && name@ == text@,
{
    name_reads_back(v);
}

/// A type is told by its tag, whatever the tag, and the range of a number by its four digits.
pub proof fn tag_tells_the_type(tag: &str, t: FileType, back: String, key: u16, range: String)
    requires
        call_ensures(FileType::from_tag, (tag,), t),
        call_ensures(FileType::to_mime, (&t,), back),
        call_ensures(range_text, (key,), range),
    ensures
        t.tag() == tag@,
        back@ == t.media(),
        range@ == range_of_key(key) && range@.len() == 4,
{
}

} // verus!

//! Gallery downloads: the server's description of a gallery, and the order in which its files are
//! fetched.
use vstd::prelude::*;
use vstd::string::*;

use crate::digest::{
    hex_decode_hash, openssl_finish, openssl_new, openssl_update, same_hash,
};
use crate::error::Error;
use crate::text::{parse_i64, parse_u64, push_i64, push_u64, same_text, splitn};
use crate::url::{url_host_str, url_parse};

verus! {

/// What the server may ask for as a resolution.
pub const MINXRES_PATTERN: &'static str = "^org|\\\\d+$";

/// Characters that a directory cannot have in its name.
pub const RESERVED_PATTERN: &'static str = "(\\*|\"|\\\\|<|>|:\\|\\?)";

/// Runs of white space.
pub const SPACES_PATTERN: &'static str = "\\s+";

/// White space at either end.
pub const ENDS_PATTERN: &'static str = "(^\\s+|\\s+$)";

/// Whether a resolution is taken over: it begins with `org`, or ends with a backslash and letters `d`
/// behind it.
pub open spec fn is_minxres(s: Seq<char>) -> bool {
    ||| seq!['o', 'r', 'g'].is_prefix_of(s)
    ||| exists|at: int|
        0 <= at < s.len() - 1 && #[trigger] s[at] == '\\' && (forall|i: int|
            at < i < s.len() ==> #[trigger] s[i] == 'd')
}

/// `regex::Regex::is_match` with the pattern of a resolution, which matches a text that begins with
/// `org`, and one that ends with a backslash and at least one letter `d`.
#[verifier::external_body]
fn regex_is_match(pattern: &str, text: &str) -> (r: bool)
    requires
        pattern@ == MINXRES_PATTERN@,
    ensures
        r == is_minxres(text@),
{
    regex::Regex::new(pattern).unwrap().is_match(text)
}

/// Whether a character is white space: a line break or tab, or one of the spaces of Unicode.
pub open spec fn is_space(c: char) -> bool {
    ||| '\t' <= c <= '\r'
    ||| c == ' ' || c == '\u{85}' || c == '\u{a0}' || c == '\u{1680}'
    ||| '\u{2000}' <= c <= '\u{200a}'
    ||| c == '\u{2028}' || c == '\u{2029}' || c == '\u{202f}' || c == '\u{205f}' || c == '\u{3000}'
}

/// Whether a character is never kept in a title.
pub open spec fn is_reserved(c: char) -> bool {
    c == '*' || c == '"' || c == '\\' || c == '<' || c == '>'
}

/// A text without reserved characters. A colon, a bar and a question mark in a row are left out too.
pub open spec fn without_reserved(s: Seq<char>) -> Seq<char>
    decreases s.len(),
{
    if s.len() == 0 {
        Seq::empty()
    } else if is_reserved(s[0]) {
        without_reserved(s.skip(1))
    } else if seq![':', '|', '?'].is_prefix_of(s) {
        without_reserved(s.skip(3))
    } else {
        seq![s[0]] + without_reserved(s.skip(1))
    }
}

/// A text with one space for each run of white space.
pub open spec fn single_spaced(s: Seq<char>) -> Seq<char>
    decreases s.len(),
{
    if s.len() == 0 {
        Seq::empty()
    } else if !is_space(s.last()) {
        single_spaced(s.drop_last()).push(s.last())
    } else if s.len() > 1 && is_space(s[s.len() - 2]) {
        single_spaced(s.drop_last())
    } else {
        single_spaced(s.drop_last()).push(' ')
    }
}

/// A text without white space at its ends.
pub open spec fn trimmed(s: Seq<char>) -> Seq<char>
    decreases s.len(),
{
    if s.len() == 0 {
        s
    } else if is_space(s[0]) {
        trimmed(s.skip(1))
    } else if is_space(s.last()) {
        trimmed(s.drop_last())
    } else {
        s
    }
}

/// Whether a text is to be replaced in one of the ways that a title is cleaned by.
pub open spec fn cleans_title(pattern: Seq<char>, with: Seq<char>) -> bool {
    ||| pattern == RESERVED_PATTERN@ && with == ""@
    ||| pattern == SPACES_PATTERN@ && with == " "@
    ||| pattern == ENDS_PATTERN@ && with == ""@
}

/// `regex::Regex::replace_all` with the patterns of a title: every match makes way for the
/// replacement. The first pattern matches a reserved character, the second a run of white space that
/// is as long as it can be, the third such a run at either end of the text.
#[verifier::external_body]
fn regex_replace_all(pattern: &str, text: &str, with: &str) -> (r: String)
    requires
        cleans_title(pattern@, with@),
    ensures
        pattern@ == RESERVED_PATTERN@ && with@ == ""@ ==> r@ == without_reserved(text@),
        pattern@ == SPACES_PATTERN@ && with@ == " "@ ==> r@ == single_spaced(text@),
        pattern@ == ENDS_PATTERN@ && with@ == ""@ ==> r@ == trimmed(text@),
{
    regex::Regex::new(pattern).unwrap().replace_all(text, with).to_string()
}

/// A title without reserved characters, with single spaces, and none at its ends.
pub open spec fn cleaned_title(raw: Seq<char>) -> Seq<char> {
    trimmed(single_spaced(without_reserved(raw)))
}

fn clean_title(raw: &str) -> (r: String)
    ensures
        r@ == cleaned_title(raw@),
{
    let plain = regex_replace_all(RESERVED_PATTERN, raw, "");
    let spaced = regex_replace_all(SPACES_PATTERN, plain.as_str(), " ");
    regex_replace_all(ENDS_PATTERN, spaced.as_str(), "")
}

/// Whether a text can be shown as a title: no reserved character, white space only as single spaces,
/// and none at its ends.
pub open spec fn presentable(s: Seq<char>) -> bool {
    &&& forall|i: int| 0 <= i < s.len() ==> !is_reserved(#[trigger] s[i])
    &&& forall|i: int| 0 <= i < s.len() && is_space(#[trigger] s[i]) ==> s[i] == ' '
    &&& forall|i: int, j: int|
        #![trigger s[i], s[j]]
        0 <= i < s.len() && j == i + 1 && j < s.len() ==> !(is_space(s[i]) && is_space(s[j]))
    &&& s.len() > 0 ==> !is_space(s[0]) && !is_space(s.last())
}

proof fn lemma_without_reserved(s: Seq<char>)
    ensures
        forall|i: int|
            0 <= i < without_reserved(s).len() ==> !is_reserved(#[trigger] without_reserved(s)[i]),
    decreases s.len(),
{
    if s.len() > 0 {
        if is_reserved(s[0]) {
            lemma_without_reserved(s.skip(1));
            assert(without_reserved(s) == without_reserved(s.skip(1)));
        } else if seq![':', '|', '?'].is_prefix_of(s) {
            lemma_without_reserved(s.skip(3));
            assert(without_reserved(s) == without_reserved(s.skip(3)));
        } else {
            lemma_without_reserved(s.skip(1));
            let rest = without_reserved(s.skip(1));
            assert forall|i: int| 0 <= i < without_reserved(s).len() implies !is_reserved(
                #[trigger] without_reserved(s)[i],
            ) by {
                assert(without_reserved(s)[i] == if i == 0 { s[0] } else { rest[i - 1] });
            }
        }
    }
}

/// Every character is a single space, or one of the text's own that is no white space.
proof fn lemma_single_spaced(s: Seq<char>)
    requires
        forall|i: int| 0 <= i < s.len() ==> !is_reserved(#[trigger] s[i]),
    ensures
        ({
            let r = single_spaced(s);
            &&& forall|i: int| 0 <= i < r.len() ==> !is_reserved(#[trigger] r[i])
            &&& forall|i: int| 0 <= i < r.len() && is_space(#[trigger] r[i]) ==> r[i] == ' '
            &&& forall|i: int, j: int|
                #![trigger r[i], r[j]]
                0 <= i < r.len() && j == i + 1 && j < r.len() ==> !(is_space(r[i]) && is_space(r[j]))
            &&& s.len() > 0 ==> r.len() > 0 && is_space(r.last()) == is_space(s.last())
        }),
    decreases s.len(),
{
    if s.len() > 0 {
        let before = single_spaced(s.drop_last());
        let r = single_spaced(s);
        lemma_single_spaced(s.drop_last());
        assert(!is_reserved(s.last()));
        assert(s.len() > 1 ==> s.drop_last().last() == s[s.len() - 2]);
        if r.len() > before.len() {
            assert forall|i: int| 0 <= i < before.len() implies r[i] == before[i] by {}
            if before.len() > 0 {
                assert(r[r.len() - 2] == before.last());
            }
        }
    }
}

proof fn lemma_trimmed(s: Seq<char>)
    requires
        forall|i: int| 0 <= i < s.len() ==> !is_reserved(#[trigger] s[i]),
        forall|i: int| 0 <= i < s.len() && is_space(#[trigger] s[i]) ==> s[i] == ' ',
        forall|i: int, j: int|
            #![trigger s[i], s[j]]
            0 <= i < s.len() && j == i + 1 && j < s.len() ==> !(is_space(s[i]) && is_space(s[j])),
    ensures
        presentable(trimmed(s)),
    decreases s.len(),
{
    if s.len() > 0 {
        if is_space(s[0]) {
            lemma_trimmed(s.skip(1));
        } else if is_space(s.last()) {
            lemma_trimmed(s.drop_last());
        }
    }
}

/// Whatever the server calls a gallery, its title can be shown.
pub proof fn title_is_presentable(raw: Seq<char>)
    ensures
        presentable(cleaned_title(raw)),
{
    lemma_without_reserved(raw);
    lemma_single_spaced(without_reserved(raw));
    lemma_trimmed(single_spaced(without_reserved(raw)));
}

/// What is known of one file of a gallery.
#[verifier::ext_equal]
pub struct FileView {
    pub page: nat,
    pub fileindex: nat,
    pub xres: Seq<char>,
    pub hash: Option<Seq<u8>>,
    pub filetype: Seq<char>,
    pub filename: Seq<char>,
}

/// One file of a gallery. The hash is unknown as long as the file has not been generated.
#[derive(Debug)]
pub struct GalleryFile {
    pub page: usize,
    pub fileindex: usize,
    pub xres: String,
    pub expected_sha1_hash: Option<[u8; 20]>,
    pub filetype: String,
    pub filename: String,
}

/// The bytes of an optional hash.
pub open spec fn hash_bytes(hash: Option<[u8; 20]>) -> Option<Seq<u8>> {
    match hash {
        Some(h) => Some(h@),
        None => None,
    }
}

impl View for GalleryFile {
    type V = FileView;

    open spec fn view(&self) -> FileView {
        FileView {
            page: self.page as nat,
            fileindex: self.fileindex as nat,
            xres: self.xres@,
            hash: hash_bytes(self.expected_sha1_hash),
            filetype: self.filetype@,
            filename: self.filename@,
        }
    }
}

/// What to do with a file that may lie in the download directory.
#[derive(Clone, Copy, PartialEq, Eq, Structural, Debug)]
pub enum CheckPlan {
    /// There is no such file.
    Missing,
    /// There is one, and nothing is known that it could be held against.
    Accept,
    /// There is one, and its digest decides.
    Compare,
}

impl GalleryFile {
    /// The name of the file in the download directory.
    pub fn file_name(&self) -> (r: String)
        ensures
            r@ == self@.filename + "."@ + self@.filetype,
    {
        let mut name = self.filename.clone();
        name.append(".");
        name.append(self.filetype.as_str());
        name
    }

    /// What to do before the file is fetched, given whether a regular file of that name is there.
    pub fn check_hash(&self, is_file: bool) -> (r: CheckPlan)
        ensures
            r == if !is_file {
                CheckPlan::Missing
            } else if self@.hash is None {
                CheckPlan::Accept
            } else {
                CheckPlan::Compare
            },
    {
        if !is_file {
            CheckPlan::Missing
        } else if self.expected_sha1_hash.is_none() {
            CheckPlan::Accept
        } else {
            CheckPlan::Compare
        }
    }

    /// Whether two entries of a list say the same.
    pub fn same(&self, other: &GalleryFile) -> (r: bool)
        ensures
            r == (self@ == other@),
    {
        let same_digest = match (&self.expected_sha1_hash, &other.expected_sha1_hash) {
            (Some(a), Some(b)) => same_hash(a, b),
            (None, None) => true,
            _ => false,
        };
        let r = self.page == other.page && self.fileindex == other.fileindex && same_text(
            self.xres.as_str(),
            other.xres.as_str(),
        ) && same_digest && same_text(self.filetype.as_str(), other.filetype.as_str()) && same_text(
            self.filename.as_str(),
            other.filename.as_str(),
        );
        assert(r ==> self@ =~= other@);
        r
    }
}

/// A file on its way to the disk, and the digest of what has been written of it.
pub struct FileHash {
    hasher: openssl::sha::Sha1,
}

impl FileHash {
    /// The bytes taken so far.
    pub closed spec fn bytes(&self) -> Seq<u8> {
        crate::digest::openssl_bytes(self.hasher)
    }

    /// Nothing has been taken yet.
    pub fn new() -> (r: FileHash)
        ensures
            r.bytes() == Seq::<u8>::empty(),
    {
        FileHash { hasher: openssl_new() }
    }

    /// Takes the bytes that come next.
    pub fn update(&mut self, data: &[u8])
        requires
            old(self).bytes().len() + data@.len() < crate::digest::DIGEST_LIMIT,
        ensures
            final(self).bytes() == old(self).bytes() + data@,
    {
        openssl_update(&mut self.hasher, data);
    }

    /// Holds the digest of what was taken against the one that was promised, if one was.
    pub fn finish(self, expected: &Option<[u8; 20]>) -> (r: Result<(), Error>)
        ensures
            match r {
                Ok(_) => hash_bytes(*expected) matches Some(hash) ==> hash
                    == crate::digest::sha1_digest(self.bytes()),
                Err(e) => e matches Error::HashMismatch { expected: want, actual } && hash_bytes(
                    *expected,
                ) == Some(want@) && actual@ == crate::digest::sha1_digest(self.bytes()) && want@
                    != actual@,
            },
    {
        match expected {
            Some(want) => {
                let actual = openssl_finish(self.hasher);
                if same_hash(want, &actual) {
                    Ok(())
                } else {
                    Err(Error::HashMismatch { expected: *want, actual })
                }
            },
            None => Ok(()),
        }
    }
}

/// What is known of a gallery.
#[verifier::ext_equal]
pub struct MetaView {
    pub gid: int,
    pub filecount: nat,
    pub minxres: Seq<char>,
    pub xres_title: Seq<char>,
    pub title: Seq<char>,
    pub information: Seq<char>,
    pub files: Seq<FileView>,
    pub failures: Seq<Seq<char>>,
}

/// A gallery as the server describes it.
#[derive(Debug)]
pub struct GalleryMeta {
    gid: i32,
    filecount: usize,
    minxres: String,
    xres_title: String,
    title: String,
    information: String,
    gallery_files: Vec<GalleryFile>,
    failures: Vec<String>,
}

/// What is known of each file.
pub open spec fn file_views(files: Seq<GalleryFile>) -> Seq<FileView> {
    files.map_values(|f: GalleryFile| f@)
}

impl View for GalleryMeta {
    type V = MetaView;

    closed spec fn view(&self) -> MetaView {
        MetaView {
            gid: self.gid as int,
            filecount: self.filecount as nat,
            minxres: self.minxres@,
            xres_title: self.xres_title@,
            title: self.title@,
            information: self.information@,
            files: file_views(self.gallery_files@),
            failures: crate::text::texts(self.failures@),
        }
    }
}

/// The part of the description that a line belongs to.
#[derive(Clone, Copy, PartialEq, Eq, Structural, Debug)]
pub enum Section {
    Basic,
    FileList,
    Information,
}

/// Why a description cannot be used.
#[derive(Clone, Copy, PartialEq, Eq, Structural, Debug)]
pub enum GalleryError {
    /// A number is not one.
    Number,
    /// A line lacks a part.
    Malformed,
}

/// What a line does to what was known before it.
pub open spec fn read_line(
    at: (Section, MetaView),
    line: Seq<char>,
) -> Result<(Section, MetaView), GalleryError> {
    let (section, meta) = at;
    if line == "FILELIST"@ && section == Section::Basic {
        Ok((Section::FileList, meta))
    } else if line == "INFORMATION"@ && section == Section::FileList {
        Ok((Section::Information, meta))
    } else if section == Section::Information {
        Ok((section, MetaView { information: meta.information + line + "\n"@, ..meta }))
    } else if line.len() == 0 {
        Ok(at)
    } else if section == Section::FileList {
        match read_file(line) {
            Ok(file) => Ok((section, MetaView { files: meta.files.push(file), ..meta })),
            Err(e) => Err(e),
        }
    } else {
        match read_basic(meta, line) {
            Ok(meta) => Ok((section, meta)),
            Err(e) => Err(e),
        }
    }
}

/// A line of the file list: page, file index, resolution, hash, file type and file name. The hash
/// may be something else than a hash.
pub open spec fn read_file(line: Seq<char>) -> Result<FileView, GalleryError> {
    let parts = crate::text::splitn_seq(line, ' ', 6);
    match crate::text::parse_unsigned(parts[0], usize::MAX as nat) {
        None => Err(GalleryError::Number),
        Some(page) => if parts.len() < 2 {
            Err(GalleryError::Malformed)
        } else {
            match crate::text::parse_unsigned(parts[1], usize::MAX as nat) {
                None => Err(GalleryError::Number),
                Some(fileindex) => if parts.len() < 6 {
                    Err(GalleryError::Malformed)
                } else {
                    Ok(
                        FileView {
                            page,
                            fileindex,
                            xres: parts[2],
                            hash: if crate::digest::is_hex(parts[3], 20) {
                                Some(crate::digest::hex_bytes(parts[3]))
                            } else {
                                None
                            },
                            filetype: parts[4],
                            filename: parts[5],
                        },
                    )
                },
            }
        },
    }
}

/// A line of the basic data: a keyword, a space and a value. Other keywords are ignored.
pub open spec fn read_basic(meta: MetaView, line: Seq<char>) -> Result<MetaView, GalleryError> {
    let parts = crate::text::splitn_seq(line, ' ', 2);
    let known = parts[0] == "GID"@ || parts[0] == "FILECOUNT"@ || parts[0] == "MINXRES"@ || parts[0]
        == "TITLE"@;
    if !known {
        Ok(meta)
    } else if parts.len() < 2 {
        Err(GalleryError::Malformed)
    } else if parts[0] == "GID"@ {
        match crate::text::parse_signed(parts[1], i32::MIN as int, i32::MAX as int) {
            Some(gid) => Ok(MetaView { gid, ..meta }),
            None => Err(GalleryError::Number),
        }
    } else if parts[0] == "FILECOUNT"@ {
        match crate::text::parse_unsigned(parts[1], usize::MAX as nat) {
            Some(filecount) => Ok(MetaView { filecount, ..meta }),
            None => Err(GalleryError::Number),
        }
    } else if parts[0] == "MINXRES"@ {
        if is_minxres(parts[1]) {
            Ok(MetaView { minxres: parts[1], ..meta })
        } else {
            Ok(meta)
        }
    } else {
        Ok(titled(meta, cleaned_title(parts[1])))
    }
}

/// A gallery with its title. A resolution other than the original one makes the title distinct.
pub open spec fn titled(meta: MetaView, title: Seq<char>) -> MetaView {
    MetaView {
        title,
        xres_title: if meta.minxres == "org"@ {
            Seq::empty()
        } else {
            "-"@ + meta.minxres + "x"@
        },
        ..meta
    }
}

/// What is known before the first line.
pub open spec fn nothing_known() -> MetaView {
    MetaView {
        gid: 0,
        filecount: 0,
        minxres: Seq::empty(),
        xres_title: Seq::empty(),
        title: Seq::empty(),
        information: Seq::empty(),
        files: Seq::empty(),
        failures: Seq::empty(),
    }
}

/// What is known after some lines: the first line that cannot be used ends the reading.
pub open spec fn read_lines(lines: Seq<Seq<char>>) -> Result<(Section, MetaView), GalleryError>
    decreases lines.len(),
{
    if lines.len() == 0 {
        Ok((Section::Basic, nothing_known()))
    } else {
        match read_lines(lines.drop_last()) {
            Ok(at) => read_line(at, lines.last()),
            Err(e) => Err(e),
        }
    }
}

proof fn lemma_error_stays(lines: Seq<Seq<char>>, n: int)
    requires
        0 <= n <= lines.len(),
        read_lines(lines.take(n)) is Err,
    ensures
        read_lines(lines) == read_lines(lines.take(n)),
    decreases lines.len(),
{
    if n < lines.len() {
        assert(lines.drop_last().take(n) =~= lines.take(n));
        lemma_error_stays(lines.drop_last(), n);
    } else {
        assert(lines.take(n) =~= lines);
    }
}

fn parse_usize(s: &str) -> (r: Option<usize>)
    ensures
        match r {
            Some(v) => crate::text::parse_unsigned(s@, usize::MAX as nat) == Some(v as nat),
            None => crate::text::parse_unsigned(s@, usize::MAX as nat) is None,
        },
{
    match parse_u64(s, usize::MAX as u64) {
        Some(v) => Some(v as usize),
        None => None,
    }
}

fn parse_file(line: &str) -> (r: Result<GalleryFile, GalleryError>)
    ensures
        match r {
            Ok(file) => read_file(line@) == Ok::<FileView, GalleryError>(file@),
            Err(e) => read_file(line@) == Err::<FileView, GalleryError>(e),
        },
{
    let mut parts = splitn(line, ' ', 6);
    let ghost pieces = crate::text::splitn_seq(line@, ' ', 6);
    proof {
        crate::text::lemma_splitn_nonempty(line@, ' ', 6);
        assert(crate::text::texts(parts@).len() == parts@.len());
        assert(forall|i: int| 0 <= i < parts@.len() ==> pieces[i] == #[trigger] parts@[i]@);
    }
    let page: usize = match parse_usize(parts[0].as_str()) {
        Some(v) => v,
        None => {
            return Err(GalleryError::Number);
        },
    };
    if parts.len() < 2 {
        return Err(GalleryError::Malformed);
    }
    let fileindex: usize = match parse_usize(parts[1].as_str()) {
        Some(v) => v,
        None => {
            return Err(GalleryError::Number);
        },
    };
    if parts.len() < 6 {
        return Err(GalleryError::Malformed);
    }
    let expected_sha1_hash = hex_decode_hash(parts[3].as_str());
    let filename = parts[5].clone();
    let filetype = parts[4].clone();
    let xres = parts[2].clone();
    let file = GalleryFile { page, fileindex, xres, expected_sha1_hash, filetype, filename };
    assert(read_file(line@)->Ok_0 =~= file@);
    Ok(file)
}

impl GalleryMeta {
    /// A gallery of which nothing is known yet.
    fn empty() -> (r: GalleryMeta)
        ensures
            r@ == nothing_known(),
    {
        let r = GalleryMeta {
            gid: 0,
            filecount: 0,
            minxres: String::new(),
            xres_title: String::new(),
            title: String::new(),
            information: String::new(),
            gallery_files: Vec::new(),
            failures: Vec::new(),
        };
        assert(r@ =~= nothing_known());
        r
    }

    /// Gives the gallery its title.
    fn set_title(&mut self, title: String)
        ensures
            final(self)@ == titled(old(self)@, title@),
    {
        let mut xres_title = String::new();
        if !same_text(self.minxres.as_str(), "org") {
            xres_title.append("-");
            xres_title.append(self.minxres.as_str());
            xres_title.append("x");
            assert(xres_title@ =~= "-"@ + self.minxres@ + "x"@);
        }
        self.title = title;
        self.xres_title = xres_title;
        assert(self@ =~= titled(old(self)@, title@));
    }

    /// Sets the resolution, if the server's value matched the pattern.
    fn set_minxres(&mut self, value: &str, matched: bool)
        ensures
            final(self)@ == if matched {
                (MetaView { minxres: value@, ..old(self)@ })
            } else {
                old(self)@
            },
    {
        if matched {
            self.minxres = value.to_owned();
            assert(self@ =~= MetaView { minxres: value@, ..old(self)@ });
        }
    }

    fn parse_basic(&mut self, line: &str) -> (r: Result<(), GalleryError>)
        ensures
            match r {
                Ok(_) => read_basic(old(self)@, line@) == Ok::<MetaView, GalleryError>(final(self)@),
                Err(e) => read_basic(old(self)@, line@) == Err::<MetaView, GalleryError>(e),
            },
    {
        let parts = splitn(line, ' ', 2);
        let ghost pieces = crate::text::splitn_seq(line@, ' ', 2);
        proof {
            crate::text::lemma_splitn_nonempty(line@, ' ', 2);
            assert(crate::text::texts(parts@).len() == parts@.len());
            assert(forall|i: int| 0 <= i < parts@.len() ==> pieces[i] == #[trigger] parts@[i]@);
        }
        let is_gid = same_text(parts[0].as_str(), "GID");
        let is_filecount = same_text(parts[0].as_str(), "FILECOUNT");
        let is_minxres = same_text(parts[0].as_str(), "MINXRES");
        let is_title = same_text(parts[0].as_str(), "TITLE");
        if !is_gid && !is_filecount && !is_minxres && !is_title {
            return Ok(());
        }
        if parts.len() < 2 {
            return Err(GalleryError::Malformed);
        }
        if is_gid {
            match parse_i64(parts[1].as_str(), i32::MIN as i64, i32::MAX as i64) {
                Some(v) => {
                    self.gid = v as i32;
                    assert(self@ =~= MetaView { gid: v as int, ..old(self)@ });
                },
                None => {
                    return Err(GalleryError::Number);
                },
            }
        } else if is_filecount {
            match parse_usize(parts[1].as_str()) {
                Some(v) => {
                    self.filecount = v;
                    assert(self@ =~= MetaView { filecount: v as nat, ..old(self)@ });
                },
                None => {
                    return Err(GalleryError::Number);
                },
            }
        } else if is_minxres {
            let matched = regex_is_match(MINXRES_PATTERN, parts[1].as_str());
            self.set_minxres(parts[1].as_str(), matched);
        } else {
            self.set_title(clean_title(parts[1].as_str()));
        }
        Ok(())
    }

    /// Reads one more line of the description.
    pub fn read_line(&mut self, section: Section, line: &str) -> (r: Result<Section, GalleryError>)
        ensures
            match r {
                Ok(next) => read_line((section, old(self)@), line@) == Ok::<
                    (Section, MetaView),
                    GalleryError,
                >((next, final(self)@)),
                Err(e) => read_line((section, old(self)@), line@) == Err::<
                    (Section, MetaView),
                    GalleryError,
                >(e),
            },
    {
        if section == Section::Basic && same_text(line, "FILELIST") {
            return Ok(Section::FileList);
        }
        if section == Section::FileList && same_text(line, "INFORMATION") {
            return Ok(Section::Information);
        }
        match section {
            Section::Information => {
                self.information.append(line);
                self.information.append("\n");
                assert(self@ =~= MetaView {
                    information: old(self)@.information + line@ + "\n"@,
                    ..old(self)@
                });
                Ok(section)
            },
            Section::FileList => {
                if line.is_empty() {
                    return Ok(section);
                }
                match parse_file(line) {
                    Ok(file) => {
                        let ghost before = self.gallery_files@;
                        self.gallery_files.push(file);
                        assert(file_views(self.gallery_files@) =~= file_views(before).push(file@));
                        assert(self@ =~= MetaView {
                            files: old(self)@.files.push(file@),
                            ..old(self)@
                        });
                        Ok(section)
                    },
                    Err(e) => Err(e),
                }
            },
            Section::Basic => {
                if line.is_empty() {
                    return Ok(section);
                }
                match self.parse_basic(line) {
                    Ok(_) => Ok(section),
                    Err(e) => Err(e),
                }
            },
        }
    }

    /// The number of the gallery.
    pub fn gid(&self) -> (r: i32)
        ensures
            r == self@.gid,
    {
        self.gid
    }

    /// The resolution that was asked for.
    pub fn minxres(&self) -> (r: &str)
        ensures
            r@ == self@.minxres,
    {
        self.minxres.as_str()
    }

    /// The title of the gallery.
    pub fn title(&self) -> (r: &str)
        ensures
            r@ == self@.title,
    {
        self.title.as_str()
    }

    /// The text that is kept beside the files.
    pub fn information(&self) -> (r: &str)
        ensures
            r@ == self@.information,
    {
        self.information.as_str()
    }

    /// The files of the gallery, in the server's order.
    pub fn files(&self) -> (r: &Vec<GalleryFile>)
        ensures
            file_views(r@) == self@.files,
    {
        &self.gallery_files
    }

    /// The failures to report.
    pub fn failures(&self) -> (r: &Vec<String>)
        ensures
            crate::text::texts(r@) == self@.failures,
    {
        &self.failures
    }

    /// The directory that the gallery is saved in. `None` where a long title cannot be cut at its
    /// ninety-seventh byte.
    pub fn dir_name(&self) -> (r: Option<String>)
        ensures
            crate::text::opt_text(r) == directory(self@),
    {
        let title = self.title.as_str();
        let mut name = String::new();
        if title.as_bytes().len() > 100 {
            if !title.is_char_boundary(97) {
                return None;
            }
            let (head, _) = title.split_at(97);
            proof {
                vstd::utf8::encode_utf8_decode_utf8(head@);
                assert(head.spec_bytes() =~= title.spec_bytes().subrange(0, 97));
            }
            name.append(head);
            name.append("... [");
            assert(name@ =~= vstd::utf8::decode_utf8(
                vstd::utf8::encode_utf8(self@.title).subrange(0, 97),
            ) + "... ["@);
        } else {
            name.append(title);
            name.append(" [");
            assert(name@ =~= self@.title + " ["@);
        }
        push_i64(&mut name, self.gid as i64);
        name.append(self.xres_title.as_str());
        name.append("]");
        assert(name@ =~= directory(self@)->0);
        Some(name)
    }
}

/// The directory that a gallery is saved in: its title, cut if it is long, and what makes it
/// distinct.
pub open spec fn directory(meta: MetaView) -> Option<Seq<char>> {
    let bytes = vstd::utf8::encode_utf8(meta.title);
    let suffix = crate::text::decimal_int(meta.gid) + meta.xres_title + "]"@;
    if bytes.len() <= 100 {
        Some(meta.title + " ["@ + suffix)
    } else if vstd::utf8::is_char_boundary(bytes, 97) {
        Some(vstd::utf8::decode_utf8(bytes.subrange(0, 97)) + "... ["@ + suffix)
    } else {
        None
    }
}

/// What to do with the answer to the question for a gallery.
#[derive(Clone, Copy, PartialEq, Eq, Structural, Debug)]
pub enum TaskPlan {
    /// There is nothing to download, or the client has stopped.
    Stop,
    /// Ask again after so many seconds.
    AskAgain(u64),
    /// Download the gallery.
    Download,
}

/// Downloads the galleries that the server has queued for this client.
pub struct GalleryDownloader {
}

impl GalleryDownloader {
    /// What to do with the answer to the question for a gallery.
    pub fn plan(running: bool, task: &Option<Result<GalleryMeta, GalleryError>>) -> (r: TaskPlan)
        ensures
            r == match task {
                None => TaskPlan::Stop,
                Some(_) if !running => TaskPlan::Stop,
                Some(Err(_)) => TaskPlan::AskAgain(5),
                Some(Ok(_)) => TaskPlan::Download,
            },
    {
        match task {
            Some(parsed) => {
                if !running {
                    TaskPlan::Stop
                } else if parsed.is_ok() {
                    TaskPlan::Download
                } else {
                    TaskPlan::AskAgain(5)
                }
            },
            None => TaskPlan::Stop,
        }
    }

    /// Reads the description of a gallery.
    pub fn parser(raw_gallery: &Vec<String>) -> (r: Result<GalleryMeta, GalleryError>)
        ensures
            match r {
                Ok(meta) => read_lines(crate::text::texts(raw_gallery@)) matches Ok(at) && at.1
                    == meta@,
                Err(e) => read_lines(crate::text::texts(raw_gallery@)) == Err::<
                    (Section, MetaView),
                    GalleryError,
                >(e),
            },
    {
        let mut meta = GalleryMeta::empty();
        let mut section = Section::Basic;
        let ghost all = crate::text::texts(raw_gallery@);
        for i in 0..raw_gallery.len()
            invariant
                all == crate::text::texts(raw_gallery@),
                read_lines(all.take(i as int)) == Ok::<(Section, MetaView), GalleryError>(
                    (section, meta@),
                ),
        {
            assert(all.take(i + 1).drop_last() =~= all.take(i as int));
            assert(all.take(i + 1).last() == raw_gallery@[i as int]@);
            match meta.read_line(section, raw_gallery[i].as_str()) {
                Ok(next) => {
                    section = next;
                },
                Err(e) => {
                    proof {
                        lemma_error_stays(all, i + 1);
                    }
                    return Err(e);
                },
            }
        }
        assert(all.take(all.len() as int) =~= all);
        Ok(meta)
    }
}

/// How often the files of a gallery are gone through.
pub const PASSES: u32 = 10;

/// How far the download of a gallery has come.
#[verifier::ext_equal]
pub struct RunView {
    pub meta: MetaView,
    /// The pass, counted from zero.
    pub retry: nat,
    /// The file that is next in this pass.
    pub index: nat,
    /// The files that are on the disk, each once.
    pub done: Seq<FileView>,
}

impl RunView {
    pub open spec fn wf(self) -> bool {
        &&& self.retry < PASSES
        &&& self.index <= self.meta.files.len()
        &&& self.done.no_duplicates()
        &&& forall|i: int| 0 <= i < self.done.len() ==> self.meta.files.contains(#[trigger] self.done[i])
    }

    /// How many files can still be looked at.
    pub open spec fn work_left(self) -> int {
        (PASSES - 1 - self.retry) * self.meta.files.len() + (self.meta.files.len() - self.index)
    }
}

/// What to do next for a gallery.
#[derive(Clone, Copy, PartialEq, Eq, Structural, Debug)]
pub enum NextJob {
    /// Look at this file, and fetch it if it is not there.
    Check(usize),
    /// Every file is there.
    Complete,
    /// Files are missing after the last pass.
    GiveUp,
}

/// The first file from `from` on that is not on the disk yet.
pub open spec fn next_open(files: Seq<FileView>, done: Seq<FileView>, from: nat) -> nat
    decreases files.len() - from,
{
    if from >= files.len() {
        files.len()
    } else if done.contains(files[from as int]) {
        next_open(files, done, from + 1)
    } else {
        from
    }
}

/// The next job, and the state in which it is done. A pass that leaves too few files on the disk is
/// followed by another.
pub open spec fn next_job(v: RunView) -> (RunView, NextJob)
    decreases PASSES - v.retry,
{
    let i = next_open(v.meta.files, v.done, v.index);
    if i < v.meta.files.len() {
        (RunView { index: i, ..v }, NextJob::Check(i as usize))
    } else if v.done.len() == v.meta.filecount {
        (RunView { index: i, ..v }, NextJob::Complete)
    } else if v.retry + 1 < PASSES {
        next_job(RunView { retry: v.retry + 1, index: 0, ..v })
    } else {
        (RunView { index: i, ..v }, NextJob::GiveUp)
    }
}

/// What became of a file.
pub enum FileEvent {
    /// It was on the disk already.
    Present,
    /// It was fetched.
    Downloaded,
    /// Fetching it failed. The host is known where the server or the content was to blame.
    Failed { host: Option<String> },
    /// The server named no place to fetch it from.
    NoUrl,
}

/// Where a file can be fetched.
pub struct FileSource {
    pub url: String,
    pub host: Option<String>,
}

impl FileSource {
    /// The place that the server named first, if it is a URL.
    pub fn first(places: &Vec<String>) -> (r: Option<FileSource>)
        requires
            places@.len() > 0,
        ensures
            r is Some <==> crate::url::url_parsed(places@[0]@) is Some,
            r matches Some(source) ==> Some(source.url@) == crate::url::url_parsed(places@[0]@)
                && crate::text::opt_text(source.host) == crate::url::url_host(places@[0]@),
    {
        match url_parse(places[0].as_str()) {
            Some(url) => Some(FileSource { url, host: url_host_str(places[0].as_str()) }),
            None => None,
        }
    }

    /// The file could not be fetched from here. A disk that fails is not the fault of the host.
    pub fn failed(self, by_disk: bool) -> (r: FileEvent)
        ensures
            r == (FileEvent::Failed {
                host: if by_disk {
                    None
                } else {
                    self.host
                },
            }),
    {
        FileEvent::Failed {
            host: if by_disk {
                None
            } else {
                self.host
            },
        }
    }
}

/// What is reported of a file that could not be fetched.
pub open spec fn failure_text(host: Seq<char>, file: FileView) -> Seq<char> {
    host + "-"@ + crate::text::decimal(file.fileindex) + "-"@ + file.xres
}

/// The state after the current file.
pub open spec fn after_file(v: RunView, event: FileEvent) -> RunView {
    let file = v.meta.files[v.index as int];
    let next = RunView { index: v.index + 1, ..v };
    match event {
        FileEvent::Present | FileEvent::Downloaded => RunView { done: v.done.push(file), ..next },
        FileEvent::Failed { host: Some(host) } => RunView {
            meta: MetaView { failures: v.meta.failures.push(failure_text(host@, file)), ..v.meta },
            ..next
        },
        _ => next,
    }
}

/// The download of one gallery.
pub struct GalleryRun {
    meta: GalleryMeta,
    retry: u32,
    index: usize,
    done: Vec<usize>,
}

/// The files that some positions stand for.
spec fn files_at(files: Seq<FileView>, positions: Seq<usize>) -> Seq<FileView> {
    positions.map_values(|i: usize| files[i as int])
}

impl View for GalleryRun {
    type V = RunView;

    closed spec fn view(&self) -> RunView {
        RunView {
            meta: self.meta@,
            retry: self.retry as nat,
            index: self.index as nat,
            done: files_at(self.meta@.files, self.done@),
        }
    }
}

impl GalleryRun {
    /// The positions that are noted as done are positions of the list.
    pub closed spec fn inv(self) -> bool {
        &&& self@.wf()
        &&& forall|k: int| 0 <= k < self.done@.len() ==> #[trigger] self.done@[k] < self.meta@.files.len()
    }

    /// The download of a gallery starts.
    pub fn new(meta: GalleryMeta) -> (r: GalleryRun)
        ensures
            r.inv(),
            r@ == (RunView { meta: meta@, retry: 0, index: 0, done: Seq::empty() }),
            r@.wf(),
    {
        let done: Vec<usize> = Vec::new();
        assert(files_at(meta@.files, done@) =~= Seq::empty());
        GalleryRun { meta, retry: 0, index: 0, done }
    }

    /// The gallery, with the failures so far.
    pub fn meta(&self) -> (r: &GalleryMeta)
        ensures
            r@ == self@.meta,
    {
        &self.meta
    }

    /// Ends the download.
    pub fn into_meta(self) -> (r: GalleryMeta)
        ensures
            r@ == self@.meta,
    {
        self.meta
    }

    /// Every other pass asks for the server's own image server.
    pub fn force_image_server(&self) -> (r: bool)
        ensures
            r == (self@.retry % 2 != 0),
    {
        self.retry % 2 != 0
    }

    fn is_done(&self, i: usize) -> (r: bool)
        requires
            self.inv(),
            i < self@.meta.files.len(),
        ensures
            r == self@.done.contains(self@.meta.files[i as int]),
    {
        let ghost files = self.meta@.files;
        let list = self.meta.files();
        for k in 0..self.done.len()
            invariant
                list@.len() == files.len(),
                file_views(list@) == files,
                files == self.meta@.files,
                i < files.len(),
                self@.done == files_at(files, self.done@),
                forall|j: int| 0 <= j < self.done@.len() ==> #[trigger] self.done@[j] < files.len(),
                forall|j: int| 0 <= j < k ==> #[trigger] self@.done[j] != files[i as int],
        {
            assert(self.done@[k as int] < files.len());
            let at = self.done[k];
            assert(files[at as int] == list@[at as int]@);
            assert(files[i as int] == list@[i as int]@);
            assert(self@.done[k as int] == files[at as int]);
            if list[at].same(&list[i]) {
                return true;
            }
        }
        false
    }

    /// What to do next.
    pub fn next(&mut self) -> (r: NextJob)
        requires
            old(self).inv(),
        ensures
            final(self).inv(),
            (final(self)@, r) == next_job(old(self)@),
            final(self)@.wf(),
            r matches NextJob::Check(i) ==> i == final(self)@.index && i < final(self)@.meta.files.len()
                && !final(self)@.done.contains(final(self)@.meta.files[i as int]),
            final(self)@.work_left() <= old(self)@.work_left(),
    {
        let n = self.meta.files().len();
        assert(file_views(self.meta.gallery_files@).len() == n);
        loop
            invariant
                n == self@.meta.files.len(),
                self@.wf(),
                self.inv(),
                next_job(self@) == next_job(old(self)@),
                self@.work_left() <= old(self)@.work_left(),
            decreases PASSES - self.retry, n - self.index,
        {
            if self.index < n {
                if self.is_done(self.index) {
                    let ghost before = self@;
                    let index: usize = self.index + 1;
                    self.index = index;
                    assert(self@ =~= RunView { index: before.index + 1, ..before });
                    assert(RunView {
                        index: next_open(before.meta.files, before.done, before.index),
                        ..before
                    } =~= RunView {
                        index: next_open(self@.meta.files, self@.done, self@.index),
                        ..self@
                    });
                    assert(RunView { retry: before.retry + 1, index: 0, ..before } =~= RunView {
                        retry: self@.retry + 1,
                        index: 0,
                        ..self@
                    });
                } else {
                    assert(RunView { index: self@.index, ..self@ } =~= self@);
                    return NextJob::Check(self.index);
                }
            } else if self.done.len() == self.meta.filecount {
                assert(RunView { index: self@.index, ..self@ } =~= self@);
                return NextJob::Complete;
            } else if self.retry + 1 < PASSES {
                let ghost before = self@;
                let retry: u32 = self.retry + 1;
                self.retry = retry;
                self.index = 0;
                assert(self@ =~= RunView { retry: before.retry + 1, index: 0, ..before });
                assert(self@.work_left() == before.work_left()) by (nonlinear_arith)
                    requires
                        self@.retry == before.retry + 1,
                        self@.index == 0,
                        before.index == before.meta.files.len(),
                        self@.meta == before.meta,
                ;
            } else {
                assert(RunView { index: self@.index, ..self@ } =~= self@);
                return NextJob::GiveUp;
            }
        }
    }

    /// Takes note of what became of the current file, and tells how many seconds to wait.
    pub fn file_done(&mut self, event: FileEvent) -> (r: u64)
        requires
            old(self).inv(),
            old(self)@.index < old(self)@.meta.files.len(),
            !old(self)@.done.contains(old(self)@.meta.files[old(self)@.index as int]),
        ensures
            final(self).inv(),
            final(self)@ == after_file(old(self)@, event),
            final(self)@.wf(),
            r == match event {
                FileEvent::Present => 0,
                FileEvent::Downloaded => 1,
                _ => 5u64,
            },
            final(self)@.work_left() == old(self)@.work_left() - 1,
    {
        let ghost before = self@;
        let index: usize = self.index;
        let n = self.meta.gallery_files.len();
        assert(n == before.meta.files.len());
        let ghost file = before.meta.files[index as int];
        let wait: u64;
        match event {
            FileEvent::Present | FileEvent::Downloaded => {
                wait = match event {
                    FileEvent::Present => 0,
                    _ => 1,
                };
                let mut done = self.done.clone();
                let ghost old_done = done@;
                done.push(index);
                assert(files_at(before.meta.files, done@) =~= files_at(before.meta.files, old_done).push(file));
                assert forall|i: int, j: int| 0 <= i < done@.len() && 0 <= j < done@.len() && i != j implies
                    files_at(before.meta.files, done@)[i] != files_at(before.meta.files, done@)[j] by {
                    let k = if i < j { i } else { j };
                    assert(before.done.contains(before.done[k]));
                }
                assert forall|i: int| 0 <= i < done@.len() implies before.meta.files.contains(
                    #[trigger] files_at(before.meta.files, done@)[i],
                ) by {
                    if i < old_done.len() {
                        assert(before.meta.files.contains(before.done[i]));
                    }
                }
                self.done = done;
            },
            FileEvent::Failed { host } => {
                wait = 5;
                match host {
                    Some(host) => {
                        let file = &self.meta.gallery_files[index];
                        assert(file@ == before.meta.files[index as int]);
                        let mut text = host.clone();
                        text.append("-");
                        push_u64(&mut text, file.fileindex as u64);
                        text.append("-");
                        text.append(file.xres.as_str());
                        assert(text@ =~= failure_text(host@, file@));
                        let ghost fails = self.meta.failures@;
                        self.meta.failures.push(text);
                        assert(crate::text::texts(self.meta.failures@) =~= crate::text::texts(fails).push(text@));
                        assert(self.meta@ =~= MetaView {
                            failures: before.meta.failures.push(text@),
                            ..before.meta
                        });
                    },
                    None => {},
                }
            },
            FileEvent::NoUrl => {
                wait = 5;
            },
        }
        self.index = index + 1;
        assert(self@ =~= after_file(before, event));
        wait
    }
}

/// The download of a gallery ends: looking at a file leaves less to look at, and every file is
/// looked at no more often than there are passes.
pub proof fn run_ends(v: RunView, event: FileEvent)
    requires
        v.wf(),
        v.index < v.meta.files.len(),
    ensures
        0 < v.work_left() <= PASSES * v.meta.files.len(),
        after_file(v, event).work_left() == v.work_left() - 1,
{
    let n = v.meta.files.len();
    let r = v.retry;
    assert((PASSES - 1 - r) * n >= 0) by (nonlinear_arith)
        requires
            0 <= r < PASSES,
            n >= 0,
    ;
    assert((PASSES - 1 - r) * n <= (PASSES - 1) * n) by (nonlinear_arith)
        requires
            0 <= r < PASSES,
            n >= 0,
    ;
}

/// A gallery of which the server lists fewer files than it counts is never complete.
pub proof fn short_list_never_completes(v: RunView)
    requires
        v.wf(),
        v.meta.filecount > v.meta.files.len(),
    ensures
        next_job(v).1 != NextJob::Complete,
    decreases PASSES - v.retry,
{
    v.done.unique_seq_to_set();
    assert(v.done.to_set().subset_of(v.meta.files.to_set())) by {
        assert forall|f: FileView| v.done.to_set().contains(f) implies v.meta.files.to_set().contains(f) by {
            let k = v.done.index_of(f);
            assert(v.meta.files.contains(v.done[k]));
        }
    }
    v.meta.files.lemma_cardinality_of_set();
    vstd::set_lib::lemma_len_subset(v.done.to_set(), v.meta.files.to_set());
    if v.retry + 1 < PASSES {
        short_list_never_completes(RunView { retry: v.retry + 1, index: 0, ..v });
    }
}

/// Whether a file of the list is not on the disk yet.
pub open spec fn missing(v: RunView, i: int) -> bool {
    0 <= i < v.meta.files.len() && !v.done.contains(v.meta.files[i])
}

proof fn lemma_next_open(v: RunView, from: nat)
    requires
        from <= v.meta.files.len(),
    ensures
        ({
            let k = next_open(v.meta.files, v.done, from);
            &&& from <= k <= v.meta.files.len()
            &&& forall|i: int| from <= i < k ==> !#[trigger] missing(v, i)
            &&& k < v.meta.files.len() ==> missing(v, k as int)
        }),
    decreases v.meta.files.len() - from,
{
    if from < v.meta.files.len() && v.done.contains(v.meta.files[from as int]) {
        lemma_next_open(v, from + 1);
    }
}

proof fn lemma_next_when_all_done(v: RunView)
    requires
        v.wf(),
        forall|i: int| !#[trigger] missing(v, i),
        v.done.len() != v.meta.filecount,
    ensures
        next_job(v).1 == NextJob::GiveUp,
        next_job(v).0.meta == v.meta,
        next_job(v).0.done == v.done,
    decreases PASSES - v.retry,
{
    lemma_next_open(v, v.index);
    let again = RunView { retry: v.retry + 1, index: 0, ..v };
    if v.retry + 1 < PASSES {
        assert forall|i: int| !#[trigger] missing(again, i) by {
            assert(!missing(v, i));
        }
        lemma_next_when_all_done(again);
    }
}

/// What comes next for a gallery: the first missing file of the rest of the list; else the end, if as
/// many files are there as the gallery counts; else the first missing file of the whole list, in another
/// pass, of which there are ten; and only where no file is missing, or the tenth pass is over, the
/// download is given up.
pub proof fn next_is_first_missing_file(v: RunView)
    requires
        v.wf(),
        v.meta.files.len() <= usize::MAX,
    ensures
        ({
            let (w, job) = next_job(v);
            &&& w.meta == v.meta && w.done == v.done
            &&& if exists|i: int| v.index <= i && #[trigger] missing(v, i) {
                &&& job matches NextJob::Check(k) && w.index == k && v.index <= k && missing(v, k as int)
                    && (forall|i: int| v.index <= i < k ==> !#[trigger] missing(v, i))
                &&& w.retry == v.retry
            } else if v.done.len() == v.meta.filecount {
                job == NextJob::Complete
            } else if v.retry + 1 < 10 && exists|i: int| #[trigger] missing(v, i) {
                &&& job matches NextJob::Check(k) && w.index == k && missing(v, k as int) && (forall|i: int|
                    0 <= i < k ==> !#[trigger] missing(v, i))
                &&& w.retry == v.retry + 1
            } else {
                job == NextJob::GiveUp
            }
        }),
{
    lemma_next_open(v, v.index);
    let k = next_open(v.meta.files, v.done, v.index);
    if k == v.meta.files.len() {
        assert forall|i: int| v.index <= i implies !#[trigger] missing(v, i) by {}
        if v.done.len() != v.meta.filecount && v.retry + 1 < 10 {
            let again = RunView { retry: v.retry + 1, index: 0, ..v };
            if exists|i: int| #[trigger] missing(v, i) {
                lemma_next_open(again, 0);
                reveal_with_fuel(next_job, 3);
                assert(next_job(v) == next_job(again));
                let i = choose|i: int| #[trigger] missing(v, i);
                assert(missing(again, i));
                let first = next_open(again.meta.files, again.done, 0);
                assert forall|j: int| 0 <= j < first implies !#[trigger] missing(v, j) by {
                    assert(!missing(again, j));
                }
                assert(missing(again, first as int));
                assert(missing(v, first as int));
            } else {
                lemma_next_when_all_done(v);
            }
        }
    }
}

/// A gallery is given up only after its tenth pass, or when every listed file is there and still too few
/// or too many; a file that is missing is looked at again as long as a pass is left, and a gallery is
/// complete only with as many files as it counts.
pub proof fn missing_file_is_tried_again(run: &mut GalleryRun, r: NextJob)
    requires
        old(run).inv(),
        old(run)@.wf(),
        old(run)@.meta.files.len() <= usize::MAX,
        call_ensures(GalleryRun::next, (run,), r),
    ensures
        r == NextJob::GiveUp ==> final(run)@.done.len() != final(run)@.meta.filecount && (old(run)@.retry
            + 1 >= 10 || forall|i: int| !#[trigger] missing(old(run)@, i)),
        r == NextJob::Complete ==> final(run)@.done.len() == final(run)@.meta.filecount,
        (exists|i: int| #[trigger] missing(old(run)@, i)) && old(run)@.retry + 1 < 10 && old(run)@.done.len()
            != old(run)@.meta.filecount ==> r is Check,
        r matches NextJob::Check(k) ==> missing(final(run)@, k as int) && k == final(run)@.index,
        final(run)@.done == old(run)@.done,
        final(run)@.meta == old(run)@.meta,
{
    next_is_first_missing_file(old(run)@);
}

/// What becomes of a file is noted of that file alone: one that is there or was fetched is done from then
/// on, another one is not; and a failure is reported by the host where one is to blame, the number of the
/// file and its resolution.
pub proof fn event_is_noted(run: &mut GalleryRun, event: FileEvent, wait: u64)
    requires
        old(run).inv(),
        old(run)@.index < old(run)@.meta.files.len(),
        call_ensures(GalleryRun::file_done, (run, event), wait),
    ensures
        ({
            let v = old(run)@;
            let w = final(run)@;
            let file = v.meta.files[v.index as int];
            &&& w.index == v.index + 1 && w.retry == v.retry
            &&& w.meta.files == v.meta.files && w.meta.filecount == v.meta.filecount
            &&& match event {
                FileEvent::Present => w.done == v.done.push(file) && wait == 0,
                FileEvent::Downloaded => w.done == v.done.push(file) && wait == 1,
                _ => w.done == v.done && wait == 5,
            }
            &&& match event {
                FileEvent::Failed { host: Some(host) } => w.meta.failures.len() == v.meta.failures.len() + 1
                    && w.meta.failures.drop_last() == v.meta.failures && w.meta.failures.last()
                    == crate::text::join_seq(
                    seq![host@, crate::text::decimal(file.fileindex), file.xres],
                    seq!['-'],
                ),
                _ => w.meta.failures == v.meta.failures,
            }
        }),
{
    let v = old(run)@;
    let file = v.meta.files[v.index as int];
    match event {
        FileEvent::Failed { host: Some(host) } => {
            reveal_strlit("-");
            let parts = seq![host@, crate::text::decimal(file.fileindex), file.xres];
            reveal_with_fuel(crate::text::join_seq, 4);
            assert(parts.drop_last() =~= seq![host@, crate::text::decimal(file.fileindex)]);
            assert(parts.drop_last().drop_last() =~= seq![host@]);
            assert(crate::text::join_seq(parts, seq!['-']) =~= failure_text(host@, file));
            assert(v.meta.failures.push(failure_text(host@, file)).drop_last() =~= v.meta.failures);
        },
        _ => {},
    }
}

/// The first pass asks for any server, the next one for the server's own image server, and so on in turn.
pub proof fn passes_take_turns(a: &GalleryRun, b: &GalleryRun, x: bool, y: bool)
    requires
        call_ensures(GalleryRun::force_image_server, (a,), x),
        call_ensures(GalleryRun::force_image_server, (b,), y),
        b@.retry == a@.retry + 1,
    ensures
        a@.retry == 0 ==> !x,
        y == !x,
{
}

/// A line of the file list: six parts with spaces between them. The name, which is the last one, may hold
/// spaces.
pub open spec fn file_line(
    page: nat,
    fileindex: nat,
    xres: Seq<char>,
    hash: Seq<char>,
    filetype: Seq<char>,
    filename: Seq<char>,
) -> Seq<char> {
    crate::text::join_seq(
        seq![
            crate::text::decimal(page),
            crate::text::decimal(fileindex),
            xres,
            hash,
            filetype,
            filename,
        ],
        seq![' '],
    )
}

/// The line by which the server lists a file.
pub open spec fn line_of(file: FileView) -> Seq<char> {
    file_line(
        file.page,
        file.fileindex,
        file.xres,
        match file.hash {
            Some(hash) => crate::digest::hex_seq(hash),
            None => "unknown"@,
        },
        file.filetype,
        file.filename,
    )
}

/// Whether the server can list a file: its numbers can be told, only its name holds spaces, and its hash
/// is one.
pub open spec fn can_be_listed(file: FileView) -> bool {
    &&& file.page <= usize::MAX && file.fileindex <= usize::MAX
    &&& !file.xres.contains(' ') && !file.filetype.contains(' ')
    &&& file.hash matches Some(hash) ==> hash.len() == 20
}

proof fn lemma_no_space_in_number(n: nat)
    ensures
        !crate::text::decimal(n).contains(' '),
{
    crate::text::lemma_digits_of_decimal(n);
    if crate::text::decimal(n).contains(' ') {
        let k = crate::text::decimal(n).index_of(' ');
        assert('0' <= crate::text::decimal(n)[k] <= '9');
    }
}

/// A file is read from its line as it was listed.
pub proof fn file_reads_back(file: FileView)
    requires
        can_be_listed(file),
    ensures
        read_file(line_of(file)) == Ok::<FileView, GalleryError>(file),
{
    reveal_strlit("unknown");
    let hash = match file.hash {
        Some(hash) => crate::digest::hex_seq(hash),
        None => "unknown"@,
    };
    match file.hash {
        Some(bytes) => {
            crate::digest::hex_round_trip(bytes);
            if hash.contains(' ') {
                let k = hash.index_of(' ');
                assert(crate::digest::hex_value(hash[k]) is Some);
            }
        },
        None => {
            assert(!hash.contains(' '));
        },
    }
    let parts = seq![
        crate::text::decimal(file.page),
        crate::text::decimal(file.fileindex),
        file.xres,
        hash,
        file.filetype,
        file.filename,
    ];
    lemma_no_space_in_number(file.page);
    lemma_no_space_in_number(file.fileindex);
    assert forall|i: int| 0 <= i < parts.len() - 1 implies !(#[trigger] parts[i]).contains(' ') by {}
    crate::text::splitn_of_join(parts, ' ');
    crate::text::lemma_parse_decimal(file.page, usize::MAX as nat);
    crate::text::lemma_parse_decimal(file.fileindex, usize::MAX as nat);
    assert(read_file(line_of(file))->Ok_0 =~= file);
}

/// A line of the file list with fewer than six parts cannot be used, nor one whose first two parts are
/// not numbers.
pub proof fn short_file_line_is_refused(parts: Seq<Seq<char>>)
    requires
        1 <= parts.len() <= 6,
        forall|i: int| 0 <= i < parts.len() ==> !(#[trigger] parts[i]).contains(' '),
        parts.len() < 6 || crate::text::parse_unsigned(parts[0], usize::MAX as nat) is None
            || crate::text::parse_unsigned(parts[1], usize::MAX as nat) is None,
    ensures
        read_file(crate::text::join_seq(parts, seq![' '])) is Err,
{
    crate::text::lemma_splitn_of_short_join(parts, ' ', 6);
}

/// A line of the basic data: a keyword and its value.
pub open spec fn basic_line(keyword: Seq<char>, value: Seq<char>) -> Seq<char> {
    crate::text::join_seq(seq![keyword, value], seq![' '])
}

proof fn lemma_basic_line(keyword: Seq<char>, value: Seq<char>)
    requires
        !keyword.contains(' '),
    ensures
        crate::text::splitn_seq(basic_line(keyword, value), ' ', 2) == seq![keyword, value],
        basic_line(keyword, value).contains(' '),
        basic_line(keyword, value).len() > 0,
{
    let parts = seq![keyword, value];
    crate::text::splitn_of_join(parts, ' ');
    reveal_with_fuel(crate::text::join_seq, 3);
    assert(parts.drop_last() =~= seq![keyword]);
    let line = basic_line(keyword, value);
    assert(line =~= keyword + seq![' '] + value);
    assert(line[keyword.len() as int] == ' ');
}

proof fn lemma_keywords()
    ensures
        !"GID"@.contains(' '),
        !"FILECOUNT"@.contains(' '),
        !"MINXRES"@.contains(' '),
        !"TITLE"@.contains(' '),
        !"FILELIST"@.contains(' '),
        !"INFORMATION"@.contains(' '),
        "GID"@ != "FILECOUNT"@,
        "GID"@ != "MINXRES"@,
        "GID"@ != "TITLE"@,
        "FILECOUNT"@ != "MINXRES"@,
        "FILECOUNT"@ != "TITLE"@,
        "MINXRES"@ != "TITLE"@,
{
    reveal_strlit("GID");
    reveal_strlit("FILECOUNT");
    reveal_strlit("MINXRES");
    reveal_strlit("TITLE");
    reveal_strlit("FILELIST");
    reveal_strlit("INFORMATION");
    assert("MINXRES"@[0] == 'M' && "TITLE"@[0] == 'T' && "GID"@[0] == 'G' && "FILECOUNT"@[0] == 'F');
}

/// Each keyword of the basic data sets what it names and nothing else, whatever was known before; a line
/// that begins with another word changes nothing.
pub proof fn keyword_sets_its_value(meta: MetaView, gid: int, count: nat, value: Seq<char>, word: Seq<char>)
    requires
        i32::MIN <= gid <= i32::MAX,
        count <= usize::MAX,
        !word.contains(' '),
        word != "GID"@ && word != "FILECOUNT"@ && word != "MINXRES"@ && word != "TITLE"@,
    ensures
        read_basic(meta, basic_line("GID"@, crate::text::decimal_int(gid))) == Ok::<MetaView, GalleryError>(
            MetaView { gid, ..meta },
        ),
        read_basic(meta, basic_line("FILECOUNT"@, crate::text::decimal(count))) == Ok::<
            MetaView,
            GalleryError,
        >(MetaView { filecount: count, ..meta }),
        is_minxres(value) ==> read_basic(meta, basic_line("MINXRES"@, value)) == Ok::<
            MetaView,
            GalleryError,
        >(MetaView { minxres: value, ..meta }),
        !is_minxres(value) ==> read_basic(meta, basic_line("MINXRES"@, value)) == Ok::<
            MetaView,
            GalleryError,
        >(meta),
        read_basic(meta, basic_line("TITLE"@, value)) == Ok::<MetaView, GalleryError>(
            MetaView {
                title: cleaned_title(value),
                xres_title: if meta.minxres == seq!['o', 'r', 'g'] {
                    Seq::empty()
                } else {
                    seq!['-'] + meta.minxres + seq!['x']
                },
                ..meta
            },
        ),
        read_basic(meta, basic_line(word, value)) == Ok::<MetaView, GalleryError>(meta),
{
    lemma_keywords();
    lemma_basic_line("GID"@, crate::text::decimal_int(gid));
    lemma_basic_line("FILECOUNT"@, crate::text::decimal(count));
    lemma_basic_line("MINXRES"@, value);
    lemma_basic_line("TITLE"@, value);
    lemma_basic_line(word, value);
    crate::text::lemma_parse_decimal_int(gid, i32::MIN as int, i32::MAX as int);
    crate::text::lemma_parse_decimal(count, usize::MAX as nat);
    reveal_strlit("org");
    reveal_strlit("-");
    reveal_strlit("x");
    assert("org"@ =~= seq!['o', 'r', 'g']);
    assert("-"@ =~= seq!['-']);
    assert("x"@ =~= seq!['x']);
}

/// A gallery as the server describes it: number, count of files, resolution and title, then the list of
/// files, then some text.
pub open spec fn description(
    gid: int,
    count: nat,
    minxres: Seq<char>,
    title: Seq<char>,
    files: Seq<FileView>,
    text: Seq<Seq<char>>,
) -> Seq<Seq<char>> {
    seq![
        basic_line("GID"@, crate::text::decimal_int(gid)),
        basic_line("FILECOUNT"@, crate::text::decimal(count)),
        basic_line("MINXRES"@, minxres),
        basic_line("TITLE"@, title),
        Seq::empty(),
        "FILELIST"@,
    ] + files.map_values(|f: FileView| line_of(f)) + seq![Seq::empty(), "INFORMATION"@] + text
}

/// Some lines, each with a line feed behind it.
pub open spec fn with_line_feeds(text: Seq<Seq<char>>) -> Seq<char>
    decreases text.len(),
{
    if text.len() == 0 {
        Seq::empty()
    } else {
        with_line_feeds(text.drop_last()) + text.last() + seq!['\n']
    }
}

proof fn lemma_read_text(lines: Seq<Seq<char>>, meta: MetaView, text: Seq<Seq<char>>)
    requires
        read_lines(lines) == Ok::<(Section, MetaView), GalleryError>((Section::Information, meta)),
    ensures
        read_lines(lines + text) == Ok::<(Section, MetaView), GalleryError>(
            (
                Section::Information,
                MetaView { information: meta.information + with_line_feeds(text), ..meta },
            ),
        ),
    decreases text.len(),
{
    if text.len() == 0 {
        assert(lines + text =~= lines);
        assert(MetaView { information: meta.information + with_line_feeds(text), ..meta } =~= meta);
    } else {
        lemma_read_text(lines, meta, text.drop_last());
        assert((lines + text).drop_last() =~= lines + text.drop_last());
        reveal_strlit("\n");
        assert((meta.information + with_line_feeds(text.drop_last())) + text.last() + "\n"@
            =~= meta.information + with_line_feeds(text));
    }
}

proof fn lemma_read_files(lines: Seq<Seq<char>>, meta: MetaView, files: Seq<FileView>)
    requires
        read_lines(lines) == Ok::<(Section, MetaView), GalleryError>((Section::FileList, meta)),
        forall|i: int| 0 <= i < files.len() ==> can_be_listed(#[trigger] files[i]),
    ensures
        read_lines(lines + files.map_values(|f: FileView| line_of(f))) == Ok::<
            (Section, MetaView),
            GalleryError,
        >((Section::FileList, MetaView { files: meta.files + files, ..meta })),
    decreases files.len(),
{
    let listed = files.map_values(|f: FileView| line_of(f));
    if files.len() == 0 {
        assert(lines + listed =~= lines);
        assert(MetaView { files: meta.files + files, ..meta } =~= meta);
    } else {
        let short = files.drop_last();
        assert forall|i: int| 0 <= i < short.len() implies can_be_listed(#[trigger] short[i]) by {
            assert(short[i] == files[i]);
        }
        lemma_read_files(lines, meta, short);
        assert((lines + listed).drop_last() =~= lines + short.map_values(|f: FileView| line_of(f)));
        let file = files.last();
        assert(can_be_listed(files[files.len() - 1]));
        file_reads_back(file);
        let line = line_of(file);
        assert((lines + listed).last() == line);
        lemma_line_has_space(file);
        lemma_keywords();
        assert((meta.files + short).push(file) =~= meta.files + files);
    }
}

proof fn lemma_line_has_space(file: FileView)
    ensures
        line_of(file).contains(' '),
        line_of(file).len() > 0,
{
    let hash = match file.hash {
        Some(hash) => crate::digest::hex_seq(hash),
        None => "unknown"@,
    };
    let parts = seq![
        crate::text::decimal(file.page),
        crate::text::decimal(file.fileindex),
        file.xres,
        hash,
        file.filetype,
        file.filename,
    ];
    let head = crate::text::join_seq(parts.drop_last(), seq![' ']);
    assert(line_of(file) == head + seq![' '] + parts.last());
    assert(line_of(file)[head.len() as int] == ' ');
}

proof fn lemma_basic_step(
    lines: Seq<Seq<char>>,
    meta: MetaView,
    keyword: Seq<char>,
    value: Seq<char>,
    next: MetaView,
)
    requires
        read_lines(lines) == Ok::<(Section, MetaView), GalleryError>((Section::Basic, meta)),
        read_basic(meta, basic_line(keyword, value)) == Ok::<MetaView, GalleryError>(next),
        !keyword.contains(' '),
    ensures
        read_lines(lines.push(basic_line(keyword, value))) == Ok::<(Section, MetaView), GalleryError>(
            (Section::Basic, next),
        ),
{
    lemma_keywords();
    lemma_basic_line(keyword, value);
    assert(lines.push(basic_line(keyword, value)).drop_last() =~= lines);
}

proof fn lemma_section_step(lines: Seq<Seq<char>>, section: Section, meta: MetaView)
    requires
        section != Section::Information,
        read_lines(lines) == Ok::<(Section, MetaView), GalleryError>((section, meta)),
    ensures
        read_lines(
            lines.push(Seq::empty()).push(
                if section == Section::Basic {
                    "FILELIST"@
                } else {
                    "INFORMATION"@
                },
            ),
        ) == Ok::<(Section, MetaView), GalleryError>(
            (
                if section == Section::Basic {
                    Section::FileList
                } else {
                    Section::Information
                },
                meta,
            ),
        ),
{
    lemma_marks();
    let blank = lines.push(Seq::empty());
    let mark = if section == Section::Basic {
        "FILELIST"@
    } else {
        "INFORMATION"@
    };
    assert(blank.drop_last() =~= lines);
    assert(read_lines(blank) == Ok::<(Section, MetaView), GalleryError>((section, meta)));
    assert(blank.push(mark).drop_last() =~= blank);
}

/// A gallery is read as it was described: its number, how many files it counts, its resolution, its title
/// as far as it can be shown, every file of the list in order, and the text with a line feed behind each
/// line. No failure is known yet.
pub proof fn description_reads_back(
    gid: int,
    count: nat,
    minxres: Seq<char>,
    title: Seq<char>,
    files: Seq<FileView>,
    text: Seq<Seq<char>>,
)
    requires
        i32::MIN <= gid <= i32::MAX,
        count <= usize::MAX,
        is_minxres(minxres),
        forall|i: int| 0 <= i < files.len() ==> can_be_listed(#[trigger] files[i]),
    ensures
        read_lines(description(gid, count, minxres, title, files, text)) == Ok::<
            (Section, MetaView),
            GalleryError,
        >(
            (
                Section::Information,
                MetaView {
                    gid,
                    filecount: count,
                    minxres,
                    xres_title: if minxres == seq!['o', 'r', 'g'] {
                        Seq::empty()
                    } else {
                        seq!['-'] + minxres + seq!['x']
                    },
                    title: cleaned_title(title),
                    information: with_line_feeds(text),
                    files,
                    failures: Seq::empty(),
                },
            ),
        ),
{
    lemma_keywords();
    reveal_strlit("other");
    reveal_strlit("GID");
    reveal_strlit("FILECOUNT");
    reveal_strlit("MINXRES");
    reveal_strlit("TITLE");
    let other = "other"@;
    assert(other[0] == 'o');
    let m0 = nothing_known();
    let l1 = basic_line("GID"@, crate::text::decimal_int(gid));
    let l2 = basic_line("FILECOUNT"@, crate::text::decimal(count));
    let l3 = basic_line("MINXRES"@, minxres);
    let l4 = basic_line("TITLE"@, title);
    let m1 = MetaView { gid, ..m0 };
    let m2 = MetaView { filecount: count, ..m1 };
    let m3 = MetaView { minxres, ..m2 };
    let m4 = MetaView {
        title: cleaned_title(title),
        xres_title: if minxres == seq!['o', 'r', 'g'] {
            Seq::empty()
        } else {
            seq!['-'] + minxres + seq!['x']
        },
        ..m3
    };
    keyword_sets_its_value(m0, gid, count, minxres, other);
    keyword_sets_its_value(m1, gid, count, minxres, other);
    keyword_sets_its_value(m2, gid, count, minxres, other);
    keyword_sets_its_value(m3, gid, count, title, other);
    let s0 = Seq::<Seq<char>>::empty();
    let s1 = s0.push(l1);
    let s2 = s1.push(l2);
    let s3 = s2.push(l3);
    let s4 = s3.push(l4);
    let s5 = s4.push(Seq::empty());
    let s6 = s5.push("FILELIST"@);
    lemma_basic_step(s0, m0, "GID"@, crate::text::decimal_int(gid), m1);
    lemma_basic_step(s1, m1, "FILECOUNT"@, crate::text::decimal(count), m2);
    lemma_basic_step(s2, m2, "MINXRES"@, minxres, m3);
    lemma_basic_step(s3, m3, "TITLE"@, title, m4);
    lemma_section_step(s4, Section::Basic, m4);
    lemma_read_files(s6, m4, files);
    let s7 = s6 + files.map_values(|f: FileView| line_of(f));
    let m7 = MetaView { files, ..m4 };
    assert(MetaView { files: m4.files + files, ..m4 } =~= m7);
    let s8 = s7.push(Seq::empty());
    let s9 = s8.push("INFORMATION"@);
    lemma_section_step(s7, Section::FileList, m7);
    lemma_read_text(s9, m7, text);
    assert(s9 + text =~= description(gid, count, minxres, title, files, text));
    assert(m7.information + with_line_feeds(text) =~= with_line_feeds(text));
}

proof fn lemma_marks()
    ensures
        "FILELIST"@.len() == 8,
        "INFORMATION"@.len() == 11,
{
    reveal_strlit("FILELIST");
    reveal_strlit("INFORMATION");
}

/// A line that cannot be used spoils the whole description, whatever follows it.
pub proof fn bad_line_spoils_description(lines: Seq<Seq<char>>, n: int)
    requires
        0 <= n <= lines.len(),
        read_lines(lines.take(n)) is Err,
    ensures
        read_lines(lines) is Err,
{
    lemma_error_stays(lines, n);
}

/// A title that can be shown is kept as it is, as long as it does not hold a colon, a bar and a question
/// mark in a row.
pub proof fn presentable_title_is_kept(s: Seq<char>)
    requires
        presentable(s),
        forall|i: int| 0 <= i < s.len() ==> #[trigger] s[i] != '|',
    ensures
        cleaned_title(s) == s,
{
    lemma_nothing_reserved(s);
    lemma_already_single(s);
}

proof fn lemma_nothing_reserved(s: Seq<char>)
    requires
        forall|i: int| 0 <= i < s.len() ==> !is_reserved(#[trigger] s[i]) && s[i] != '|',
    ensures
        without_reserved(s) == s,
    decreases s.len(),
{
    if s.len() > 0 {
        let rest = s.skip(1);
        assert forall|i: int| 0 <= i < rest.len() implies !is_reserved(#[trigger] rest[i]) && rest[i] != '|' by {
            assert(rest[i] == s[i + 1]);
        }
        lemma_nothing_reserved(rest);
        assert(!is_reserved(s[0]));
        if seq![':', '|', '?'].is_prefix_of(s) {
            assert(s.subrange(0, 3)[1] == s[1]);
            assert(false);
        }
        assert(seq![s[0]] + rest =~= s);
    }
}

proof fn lemma_already_single(s: Seq<char>)
    requires
        forall|i: int| 0 <= i < s.len() && is_space(#[trigger] s[i]) ==> s[i] == ' ',
        forall|i: int, j: int|
            #![trigger s[i], s[j]]
            0 <= i < s.len() && j == i + 1 && j < s.len() ==> !(is_space(s[i]) && is_space(s[j])),
    ensures
        single_spaced(s) == s,
    decreases s.len(),
{
    if s.len() > 0 {
        lemma_already_single(s.drop_last());
        assert(s[s.len() - 1] == s.last());
        if s.len() > 1 {
            assert(!(is_space(s[s.len() - 2]) && is_space(s[s.len() - 1])));
        }
        assert(s.drop_last().push(s.last()) =~= s);
    }
}

/// The characters of a text that are no white space.
pub open spec fn solid(s: Seq<char>) -> Seq<char>
    decreases s.len(),
{
    if s.len() == 0 {
        Seq::empty()
    } else if is_space(s.last()) {
        solid(s.drop_last())
    } else {
        solid(s.drop_last()).push(s.last())
    }
}

/// A title keeps all its characters in order, but for white space and for what is reserved: nothing else
/// is lost, and nothing comes in.
pub proof fn title_keeps_its_characters(raw: Seq<char>)
    ensures
        solid(cleaned_title(raw)) == solid(without_reserved(raw)),
        (forall|i: int| 0 <= i < raw.len() ==> !is_reserved(#[trigger] raw[i]) && raw[i] != '|') ==> solid(
            cleaned_title(raw),
        ) == solid(raw),
{
    lemma_solid_single(without_reserved(raw));
    lemma_solid_trimmed(single_spaced(without_reserved(raw)));
    if forall|i: int| 0 <= i < raw.len() ==> !is_reserved(#[trigger] raw[i]) && raw[i] != '|' {
        lemma_nothing_reserved(raw);
    }
}

proof fn lemma_solid_single(s: Seq<char>)
    ensures
        solid(single_spaced(s)) == solid(s),
    decreases s.len(),
{
    if s.len() > 0 {
        lemma_solid_single(s.drop_last());
        let before = single_spaced(s.drop_last());
        assert(before.push(s.last()).drop_last() =~= before);
        assert(before.push(' ').drop_last() =~= before);
    }
}

proof fn lemma_solid_skip(s: Seq<char>)
    requires
        s.len() > 0,
        is_space(s[0]),
    ensures
        solid(s.skip(1)) == solid(s),
    decreases s.len(),
{
    if s.len() == 1 {
        assert(s.skip(1) =~= Seq::empty());
        assert(s.drop_last() =~= Seq::empty());
        assert(solid(s.drop_last()) =~= Seq::empty());
    } else {
        lemma_solid_skip(s.drop_last());
        assert(s.drop_last().skip(1) =~= s.skip(1).drop_last());
    }
}

proof fn lemma_solid_trimmed(s: Seq<char>)
    ensures
        solid(trimmed(s)) == solid(s),
    decreases s.len(),
{
    if s.len() > 0 {
        if is_space(s[0]) {
            lemma_solid_skip(s);
            lemma_solid_trimmed(s.skip(1));
        } else if is_space(s.last()) {
            lemma_solid_trimmed(s.drop_last());
        }
    }
}

/// The directory of a gallery: a title of up to a hundred bytes stands in it as it is, and what follows
/// depends on the number and the resolution alone; galleries with the same title but different numbers
/// have different directories.
pub proof fn directory_tells_galleries_apart(meta: MetaView, other: MetaView)
    requires
        vstd::utf8::encode_utf8(meta.title).len() <= 100,
    ensures
        directory(meta) matches Some(name) && name == meta.title + directory(
            MetaView { title: Seq::empty(), ..meta },
        )->0,
        directory(MetaView { title: Seq::empty(), ..meta }) == Some(
            seq![' ', '['] + crate::text::decimal_int(meta.gid) + meta.xres_title + seq![']'],
        ),
        other.title == meta.title && other.xres_title == meta.xres_title && other.gid != meta.gid
            ==> directory(other) != directory(meta),
{
    reveal_strlit(" [");
    reveal_strlit("]");
    let bare = MetaView { title: Seq::empty(), ..meta };
    assert(vstd::utf8::encode_utf8(bare.title).len() == 0) by {
        reveal_with_fuel(vstd::utf8::encode_utf8, 1);
    }
    let tail = seq![' ', '['] + crate::text::decimal_int(meta.gid) + meta.xres_title + seq![']'];
    assert(directory(bare)->0 =~= tail);
    assert(directory(meta)->0 =~= meta.title + tail);
    if other.title == meta.title && other.xres_title == meta.xres_title && directory(other) == directory(meta) {
        let a = crate::text::decimal_int(meta.gid);
        let b = crate::text::decimal_int(other.gid);
        let name = directory(meta)->0;
        assert(directory(other)->0 =~= meta.title + (seq![' ', '['] + b + meta.xres_title + seq![']']));
        assert(a.len() == b.len());
        let at = meta.title.len() as int + 2;
        assert(a =~= name.subrange(at, at + a.len()));
        assert(b =~= name.subrange(at, at + b.len()));
        crate::text::integers_are_written_once(meta.gid, other.gid);
    }
}

/// A longer title is cut behind its ninety-seventh byte and marked as cut, if it can be cut there; else
/// there is no directory.
pub proof fn long_title_is_cut(meta: MetaView)
    requires
        vstd::utf8::encode_utf8(meta.title).len() > 100,
    ensures
        match directory(meta) {
            Some(name) => {
                let bytes = vstd::utf8::encode_utf8(meta.title);
                name == vstd::utf8::decode_utf8(bytes.take(97)) + seq!['.', '.', '.'] + directory(
                    MetaView { title: Seq::empty(), ..meta },
                )->0
            },
            None => !vstd::utf8::is_char_boundary(vstd::utf8::encode_utf8(meta.title), 97),
        },
{
    reveal_strlit(" [");
    reveal_strlit("... [");
    reveal_strlit("]");
    let bare = MetaView { title: Seq::empty(), ..meta };
    assert(vstd::utf8::encode_utf8(bare.title).len() == 0) by {
        reveal_with_fuel(vstd::utf8::encode_utf8, 1);
    }
    let bytes = vstd::utf8::encode_utf8(meta.title);
    assert(bytes.take(97) =~= bytes.subrange(0, 97));
    if directory(meta) is Some {
        let head = vstd::utf8::decode_utf8(bytes.take(97));
        assert(directory(meta)->0 =~= head + seq!['.', '.', '.'] + directory(bare)->0);
    }
}

/// A file that was fetched is kept only if its digest is the one that was promised, where one was.
pub proof fn wrong_content_is_refused(hash: FileHash, expected: Option<[u8; 20]>, r: Result<(), Error>)
    requires
        call_ensures(FileHash::finish, (hash, &expected), r),
    ensures
        match expected {
            Some(want) => r is Ok <==> crate::digest::sha1_digest(hash.bytes()) == want@,
            None => r is Ok,
        },
{
}

/// A file of the list is fetched unless a file of its name is there; one that has a hash is accepted only
/// by its digest.
pub proof fn listed_hash_is_checked(file: &GalleryFile, is_file: bool, r: CheckPlan)
    requires
        call_ensures(GalleryFile::check_hash, (file, is_file), r),
    ensures
        r == CheckPlan::Missing <==> !is_file,
        r == CheckPlan::Accept ==> file.expected_sha1_hash is None,
        r == CheckPlan::Compare ==> file.expected_sha1_hash is Some,
{
}

/// A client that has stopped downloads nothing, nor does one that was given nothing; a description that
/// cannot be read is asked for again.
pub proof fn stopped_client_downloads_nothing(
    running: bool,
    task: Option<Result<GalleryMeta, GalleryError>>,
    r: TaskPlan,
)
    requires
        call_ensures(GalleryDownloader::plan, (running, &task), r),
    ensures
        r == TaskPlan::Download <==> running && (task matches Some(parsed) && parsed is Ok),
        r is AskAgain <==> running && (task matches Some(parsed) && parsed is Err),
{
}

/// The description of a gallery that the server has sent is parsed as it was meant, and what was parsed is
/// found in the gallery.
pub proof fn described_gallery_is_parsed(
    raw: &Vec<String>,
    r: Result<GalleryMeta, GalleryError>,
    gid: int,
    count: nat,
    minxres: Seq<char>,
    title: Seq<char>,
    files: Seq<FileView>,
    text: Seq<Seq<char>>,
)
    requires
        call_ensures(GalleryDownloader::parser, (raw,), r),
        crate::text::texts(raw@) == description(gid, count, minxres, title, files, text),
        i32::MIN <= gid <= i32::MAX,
        count <= usize::MAX,
        is_minxres(minxres),
        forall|i: int| 0 <= i < files.len() ==> can_be_listed(#[trigger] files[i]),
    ensures
        r matches Ok(meta) && meta@.gid == gid && meta@.filecount == count && meta@.minxres == minxres
            && meta@.title == cleaned_title(title) && meta@.files == files && meta@.information
            == with_line_feeds(text) && meta@.failures.len() == 0,
{
    description_reads_back(gid, count, minxres, title, files, text);
}

/// A file of a gallery is saved under its name and its type with a dot between them.
pub proof fn file_is_saved_by_name_and_type(file: &GalleryFile, r: String, other: &GalleryFile, same: bool)
    requires
        call_ensures(GalleryFile::file_name, (file,), r),
        call_ensures(GalleryFile::same, (file, other), same),
    ensures
        r@ == file.filename@ + seq!['.'] + file.filetype@,
        same <==> file@ == other@,
{
    reveal_strlit(".");
    assert("."@ =~= seq!['.']);
}

/// A file that could not be fetched is the fault of the host, unless the disk has failed; and the place that is
/// tried is the first one that the server has named.
pub proof fn host_is_blamed(
    source: FileSource,
    by_disk: bool,
    r: FileEvent,
    places: &Vec<String>,
    first: Option<FileSource>,
)
    requires
        call_ensures(FileSource::failed, (source, by_disk), r),
        call_ensures(FileSource::first, (places,), first),
        places@.len() > 0,
    ensures
        r matches FileEvent::Failed { host } && (by_disk ==> host is None) && (!by_disk ==> host == source.host),
        first is Some <==> crate::url::url_parsed(places@[0]@) is Some,
        first matches Some(found) ==> crate::url::url_parsed(places@[0]@) == Some(found.url@),
{
}

/// A new run begins with the first file and no file done, and has ten passes for it.
pub proof fn new_run_begins_at_the_first_file(meta: GalleryMeta, start: GalleryRun, run: &mut GalleryRun, r: NextJob)
    requires
        call_ensures(GalleryRun::new, (meta,), start),
        *old(run) == start,
        start.inv(),
        call_ensures(GalleryRun::next, (run,), r),
    ensures
        start@.meta == meta@ && start@.done.len() == 0,
        meta@.files.len() > 0 ==> r == NextJob::Check(0) && final(run)@.work_left() == 10 * meta@.files.len(),
        meta@.files.len() == 0 ==> (r == NextJob::Complete <==> meta@.filecount == 0),
{
    reveal_with_fuel(next_open, 2);
    reveal_with_fuel(next_job, 11);
    if meta@.files.len() > 0 {
        assert(!start@.done.contains(meta@.files[0]));
        let n = meta@.files.len();
        assert(next_open(meta@.files, start@.done, 0) == 0);
        assert(final(run)@ == (RunView { index: 0, ..start@ }));
        assert((PASSES - 1 - 0) * n + (n - 0) == 10 * n) by (nonlinear_arith)
            requires
                PASSES == 10,
        ;
    }
}

/// A line whose first or second part is no number is refused for that; one that begins well but is too short
/// is refused as malformed.
pub proof fn line_is_refused_for_a_reason(line: Seq<char>, parts: Seq<Seq<char>>)
    requires
        line == crate::text::join_seq(parts, seq![' ']),
        1 <= parts.len() <= 6,
        forall|i: int| 0 <= i < parts.len() ==> !(#[trigger] parts[i]).contains(' '),
    ensures
        crate::text::parse_unsigned(parts[0], usize::MAX as nat) is None ==> read_file(line) == Err::<
            FileView,
            GalleryError,
        >(GalleryError::Number),
        parts.len() >= 2 && crate::text::parse_unsigned(parts[1], usize::MAX as nat) is None ==> read_file(line)
            == Err::<FileView, GalleryError>(GalleryError::Number),
        parts.len() < 6 && crate::text::parse_unsigned(parts[0], usize::MAX as nat) is Some && (parts.len() >= 2
            ==> crate::text::parse_unsigned(parts[1], usize::MAX as nat) is Some) ==> read_file(line) == Err::<
            FileView,
            GalleryError,
        >(GalleryError::Malformed),
{
    crate::text::lemma_splitn_of_short_join(parts, ' ', 6);
}

/// The directory of a gallery with a short title is its title, with its number and its resolution in brackets.
pub proof fn directory_is_named_by_title(meta: &GalleryMeta, r: Option<String>)
    requires
        call_ensures(GalleryMeta::dir_name, (meta,), r),
        vstd::utf8::encode_utf8(meta@.title).len() <= 100,
    ensures
        r matches Some(name) && name@ == meta@.title + seq![' ', '['] + crate::text::decimal_int(meta@.gid)
            + meta@.xres_title + seq![']'],
{
    reveal_strlit(" [");
    reveal_strlit("]");
    assert(r->0@ =~= meta@.title + seq![' ', '['] + crate::text::decimal_int(meta@.gid) + meta@.xres_title + seq![
        ']',
    ]);
}

/// The gallery is handed back as it was downloaded, with its failures.
pub proof fn gallery_is_handed_back(
    run: GalleryRun,
    r: GalleryMeta,
    gid: i32,
    files: &Vec<GalleryFile>,
    failures: &Vec<String>,
    title: &str,
    information: &str,
    minxres: &str,
)
    requires
        call_ensures(GalleryRun::into_meta, (run,), r),
        call_ensures(GalleryMeta::gid, (&r,), gid),
        call_ensures(GalleryMeta::files, (&r,), files),
        call_ensures(GalleryMeta::failures, (&r,), failures),
        call_ensures(GalleryMeta::title, (&r,), title),
        call_ensures(GalleryMeta::information, (&r,), information),
        call_ensures(GalleryMeta::minxres, (&r,), minxres),
    ensures
        gid == run@.meta.gid,
        file_views(files@) == run@.meta.files,
        crate::text::texts(failures@) == run@.meta.failures,
        title@ == run@.meta.title && information@ == run@.meta.information && minxres@ == run@.meta.minxres,
{
}

/// A description without a line names no gallery: it has the number zero, and no files.
pub proof fn empty_description_names_nothing(raw: &Vec<String>, r: Result<GalleryMeta, GalleryError>)
    requires
        call_ensures(GalleryDownloader::parser, (raw,), r),
        raw@.len() == 0,
    ensures
        r matches Ok(meta) && meta@.gid == 0 && meta@.filecount == 0 && meta@.files.len() == 0
            && meta@.title.len() == 0 && meta@.minxres.len() == 0 && meta@.xres_title.len() == 0
            && meta@.information.len() == 0 && meta@.failures.len() == 0,
{
    assert(crate::text::texts(raw@).len() == 0);
}

} // verus!

use vstd::prelude::*;
use vstd::string::StringSliceAdditionalSpecFns;

use crate::hex::{all_hex, bytes_of_hex, hex_of, hex_to_bytes, slice_to_hex};
use crate::text::{
    lacks, lemma_dec_of, lemma_last_index_append, lemma_segments_append, lemma_segments_single,
    all_ascii, ascii_chars, ascii_string, copy_range, dec_of, find_last, last_index, parse_uint, parse_uint_bytes,
    push_dec, segments, split,
};

verus! {

/// A file name that does not describe a cached artifact.
pub struct FetchParseError;

/// The 20-byte content hash that identifies an artifact.
#[derive(Clone, Copy, Debug, PartialEq, Eq, Hash)]
pub struct FileHash(pub [u8; 20]);

/// Kind of media an artifact holds; `Unknown` keeps an unrecognised extension token as it was.
#[derive(Clone, Debug)]
pub enum FileType {
    Jpeg,
    Png,
    Gif,
    WebP,
    Avif,
    JpegXL,
    MP4,
    WebM,
    Unknown(Vec<u8>),
}

/// Size, resolution and kind of an artifact.
#[derive(Debug)]
pub struct FileInfo {
    pub size: u64,
    /// Resolution: width, height.
    pub res: (u32, u32),
    pub typ: FileType,
}

/// Description of one cached artifact.
#[derive(Debug)]
pub struct CacheFile {
    pub hash: FileHash,
    pub info: FileInfo,
}

pub open spec fn tok_jpg() -> Seq<u8> {
    seq![106u8, 112u8, 103u8]
}

pub open spec fn tok_png() -> Seq<u8> {
    seq![112u8, 110u8, 103u8]
}

pub open spec fn tok_gif() -> Seq<u8> {
    seq![103u8, 105u8, 102u8]
}

pub open spec fn tok_wbp() -> Seq<u8> {
    seq![119u8, 98u8, 112u8]
}

pub open spec fn tok_avf() -> Seq<u8> {
    seq![97u8, 118u8, 102u8]
}

pub open spec fn tok_jxl() -> Seq<u8> {
    seq![106u8, 120u8, 108u8]
}

pub open spec fn tok_mp4() -> Seq<u8> {
    seq![109u8, 112u8, 52u8]
}

pub open spec fn tok_webm() -> Seq<u8> {
    seq![119u8, 101u8, 98u8, 109u8]
}

/// One of the extension tokens of the known media kinds.
pub open spec fn is_known_token(t: Seq<u8>) -> bool {
    t == tok_jpg() || t == tok_png() || t == tok_gif() || t == tok_wbp() || t == tok_avf() || t
        == tok_jxl() || t == tok_mp4() || t == tok_webm()
}

/// The on-disk extension token of a media kind.
pub open spec fn ext_of(t: FileType) -> Seq<u8> {
    match t {
        FileType::Jpeg => tok_jpg(),
        FileType::Png => tok_png(),
        FileType::Gif => tok_gif(),
        FileType::WebP => tok_wbp(),
        FileType::Avif => tok_avf(),
        FileType::JpegXL => tok_jxl(),
        FileType::MP4 => tok_mp4(),
        FileType::WebM => tok_webm(),
        FileType::Unknown(v) => v@,
    }
}

/// `t` is the kind that the token `ext` names.
pub open spec fn names_type(ext: Seq<u8>, t: FileType) -> bool {
    &&& ext_of(t) == ext
    &&& (t is Unknown <==> !is_known_token(ext))
}

/// The MIME type served for a media kind.
pub open spec fn mime_of(t: FileType) -> &'static str {
    match t {
        FileType::Jpeg => "image/jpeg",
        FileType::Png => "image/png",
        FileType::Gif => "image/gif",
        FileType::WebP => "image/webp",
        FileType::Avif => "image/avif",
        FileType::JpegXL => "image/jxl",
        FileType::MP4 => "video/mp4",
        FileType::WebM => "video/webm",
        FileType::Unknown(_) => "application/octet-stream",
    }
}

fn eq_bytes(a: &[u8], b0: u8, b1: u8, b2: u8) -> (r: bool)
    ensures
        r == (a@ == seq![b0, b1, b2]),
{
    if a.len() == 3 && a[0] == b0 && a[1] == b1 && a[2] == b2 {
        assert(a@ =~= seq![b0, b1, b2]);
        true
    } else {
        false
    }
}

impl FileType {
    /// The media kind that an extension token names.
    pub fn from_bytes(value: &[u8]) -> (r: FileType)
        ensures
            names_type(value@, r),
    {
        if eq_bytes(value, 106, 112, 103) {
            FileType::Jpeg
        } else if eq_bytes(value, 112, 110, 103) {
            FileType::Png
        } else if eq_bytes(value, 103, 105, 102) {
            FileType::Gif
        } else if eq_bytes(value, 119, 98, 112) {
            FileType::WebP
        } else if eq_bytes(value, 97, 118, 102) {
            FileType::Avif
        } else if eq_bytes(value, 106, 120, 108) {
            FileType::JpegXL
        } else if eq_bytes(value, 109, 112, 52) {
            FileType::MP4
        } else if value.len() == 4 && value[0] == 119 && value[1] == 101 && value[2] == 98
            && value[3] == 109 {
            assert(value@ =~= tok_webm());
            FileType::WebM
        } else {
            assert(value@ != tok_webm()) by {
                if value@ == tok_webm() {
                    assert(value@[3] == 109u8);
                }
            }
            let v = copy_range(value, 0, value.len());
            assert(v@ =~= value@);
            FileType::Unknown(v)
        }
    }

    /// The media kind that an extension token names.
    pub fn from(value: &str) -> (r: FileType)
        ensures
            names_type(value.spec_bytes(), r),
    {
        FileType::from_bytes(value.as_bytes())
    }

    /// The on-disk extension token.
    pub fn extension(&self) -> (r: Vec<u8>)
        ensures
            r@ == ext_of(*self),
    {
        let mut v: Vec<u8> = Vec::new();
        match self {
            FileType::Jpeg => {
                v.push(106);
                v.push(112);
                v.push(103);
            },
            FileType::Png => {
                v.push(112);
                v.push(110);
                v.push(103);
            },
            FileType::Gif => {
                v.push(103);
                v.push(105);
                v.push(102);
            },
            FileType::WebP => {
                v.push(119);
                v.push(98);
                v.push(112);
            },
            FileType::Avif => {
                v.push(97);
                v.push(118);
                v.push(102);
            },
            FileType::JpegXL => {
                v.push(106);
                v.push(120);
                v.push(108);
            },
            FileType::MP4 => {
                v.push(109);
                v.push(112);
                v.push(52);
            },
            FileType::WebM => {
                v.push(119);
                v.push(101);
                v.push(98);
                v.push(109);
            },
            FileType::Unknown(s) => {
                v = copy_range(s.as_slice(), 0, s.len());
            },
        }
        assert(v@ =~= ext_of(*self));
        v
    }

    /// The MIME type served for this kind.
    pub fn mime(&self) -> (r: &'static str)
        ensures
            r == mime_of(*self),
    {
        match self {
            FileType::Jpeg => "image/jpeg",
            FileType::Png => "image/png",
            FileType::Gif => "image/gif",
            FileType::WebP => "image/webp",
            FileType::Avif => "image/avif",
            FileType::JpegXL => "image/jxl",
            FileType::MP4 => "video/mp4",
            FileType::WebM => "video/webm",
            FileType::Unknown(_) => "application/octet-stream",
        }
    }
}


/// What an artifact description says, with the media kind given by its extension token.
pub struct ArtifactView {
    pub hash: Seq<u8>,
    pub size: u64,
    pub width: u32,
    pub height: u32,
    pub ext: Seq<u8>,
}

impl View for CacheFile {
    type V = ArtifactView;

    open spec fn view(&self) -> ArtifactView {
        ArtifactView {
            hash: self.hash.0@,
            size: self.info.size,
            width: self.info.res.0,
            height: self.info.res.1,
            ext: ext_of(self.info.typ),
        }
    }
}

/// An artifact whose canonical name can be read back: its extension token holds
/// neither `.` nor `-`.
pub open spec fn legal(a: ArtifactView) -> bool {
    &&& a.hash.len() == 20
    &&& forall|i: int| 0 <= i < a.ext.len() ==> #[trigger] a.ext[i] != 46 && a.ext[i] != 45
}

/// Canonical name: `{hex(hash)}-{size}-{width}-{height}{sep}{ext}`.
pub open spec fn name_of(a: ArtifactView, sep: u8) -> Seq<u8> {
    hex_of(a.hash) + seq![45u8] + dec_of(a.size as nat) + seq![45u8] + dec_of(a.width as nat)
        + seq![45u8] + dec_of(a.height as nat) + seq![sep] + a.ext
}

/// Location of the artifact's file under `root`: two directory levels named by the first
/// and the next two hex digits of the hash, then the name with `.` before the extension.
pub open spec fn path_of(a: ArtifactView, root: Seq<u8>) -> Seq<u8> {
    let n = name_of(a, 46);
    root + seq![47u8] + n.subrange(0, 2) + seq![47u8] + n.subrange(2, 4) + seq![47u8] + n
}

/// The artifact that `hash-size-width-height` fields and an extension token describe.
pub open spec fn parse_fields(p: Seq<Seq<u8>>, ext: Seq<u8>) -> Option<ArtifactView> {
    if p.len() >= 4 && p[0].len() == 40 && all_hex(p[0]) && parse_uint(p[1], u64::MAX as nat)
        is Some && parse_uint(p[2], u32::MAX as nat) is Some && parse_uint(p[3], u32::MAX as nat)
        is Some {
        Some(
            ArtifactView {
                hash: bytes_of_hex(p[0]),
                size: parse_uint(p[1], u64::MAX as nat)->0 as u64,
                width: parse_uint(p[2], u32::MAX as nat)->0 as u32,
                height: parse_uint(p[3], u32::MAX as nat)->0 as u32,
                ext,
            },
        )
    } else {
        None
    }
}

/// Reading an on-disk file name: the extension follows the last `.`, the fields before it
/// are separated by `-` (fields after the fourth are ignored).
pub open spec fn parse_disk_name(s: Seq<u8>) -> Option<ArtifactView> {
    match last_index(s, 46) {
        Some(i) => parse_fields(segments(s.subrange(0, i), 45), s.subrange(i + 1, s.len() as int)),
        None => None,
    }
}

/// Reading the wire form: five fields separated by `-`, the fifth being the extension
/// (fields after the fifth are ignored).
pub open spec fn parse_wire_name(s: Seq<u8>) -> Option<ArtifactView> {
    let p = segments(s, 45);
    if p.len() >= 5 {
        parse_fields(p, p[4])
    } else {
        None
    }
}

impl FileType {
    /// The kind is the one its extension token names.
    pub open spec fn wf(self) -> bool {
        self is Unknown <==> !is_known_token(ext_of(self))
    }
}

impl CacheFile {
    pub open spec fn wf(&self) -> bool {
        self.info.typ.wf()
    }
}

impl FileHash {
    /// Parses 40 lowercase hexadecimal digits.
    pub fn from_hex(value: &[u8]) -> (r: Option<FileHash>)
        ensures
            r is Some <==> value@.len() == 40 && all_hex(value@),
            r matches Some(h) ==> h.0@ == bytes_of_hex(value@),
    {
        if value.len() != 40 {
            return None;
        }
        match hex_to_bytes(value) {
            None => None,
            Some(v) => {
                let mut raw = [0u8; 20];
                let mut i: usize = 0;
                while i < 20
                    invariant
                        i <= 20,
                        v@.len() == 20,
                        forall|j: int| 0 <= j < i ==> raw@[j] == v@[j],
                    decreases 20 - i,
                {
                    raw[i] = v[i];
                    i = i + 1;
                }
                assert(raw@ =~= v@);
                Some(FileHash(raw))
            },
        }
    }

    /// Parses the canonical text of a hash: exactly 40 lowercase hexadecimal digits.
    pub fn try_from(value: &str) -> (r: Result<FileHash, FetchParseError>)
        ensures
            r is Ok <==> value.spec_bytes().len() == 40 && all_hex(value.spec_bytes()),
            r matches Ok(h) ==> h.0@ == bytes_of_hex(value.spec_bytes()),
    {
        match FileHash::from_hex(value.as_bytes()) {
            Some(h) => Ok(h),
            None => Err(FetchParseError),
        }
    }

    /// The canonical text: 40 lowercase hexadecimal digits.
    pub fn to_hex(&self) -> (r: Vec<u8>)
        ensures
            r@ == hex_of(self.0@),
    {
        slice_to_hex(&self.0)
    }

    /// The canonical text as a `String`.
    pub fn to_hex_string(&self) -> (r: String)
        ensures
            r@ == ascii_chars(hex_of(self.0@)),
    {
        let h = self.to_hex();
        proof {
            crate::hex::lemma_hex_round_trip(self.0@);
            crate::hex::lemma_hex_ascii(self.0@);
        }
        ascii_string(h.as_slice())
    }

    /// Whether two hashes hold the same bytes.
    pub fn same(&self, other: &FileHash) -> (r: bool)
        ensures
            r == (self.0@ == other.0@),
    {
        let mut i: usize = 0;
        while i < 20
            invariant
                i <= 20,
                forall|j: int| 0 <= j < i ==> self.0@[j] == other.0@[j],
            decreases 20 - i,
        {
            if self.0[i] != other.0[i] {
                return false;
            }
            i = i + 1;
        }
        assert(self.0@ =~= other.0@);
        true
    }
}

fn fields_to_file(p: &Vec<Vec<u8>>, ext: &[u8]) -> (r: Option<CacheFile>)
    ensures
        r is Some <==> parse_fields(p@.map_values(|v: Vec<u8>| v@), ext@) is Some,
        r matches Some(f) ==> parse_fields(p@.map_values(|v: Vec<u8>| v@), ext@) == Some(f@)
            && f.wf(),
{
    let ghost q = p@.map_values(|v: Vec<u8>| v@);
    if p.len() < 4 {
        return None;
    }
    assert(q[0] == p@[0]@ && q[1] == p@[1]@ && q[2] == p@[2]@ && q[3] == p@[3]@);
    let hash = match FileHash::from_hex(p[0].as_slice()) {
        Some(h) => h,
        None => return None,
    };
    let size = match parse_uint_bytes(p[1].as_slice(), u64::MAX) {
        Some(n) => n,
        None => return None,
    };
    let width = match parse_uint_bytes(p[2].as_slice(), 4294967295) {
        Some(n) => n as u32,
        None => return None,
    };
    let height = match parse_uint_bytes(p[3].as_slice(), 4294967295) {
        Some(n) => n as u32,
        None => return None,
    };
    let typ = FileType::from_bytes(ext);
    let f = CacheFile { hash, info: FileInfo { size, res: (width, height), typ } };
    assert(parse_fields(q, ext@) == Some(f@));
    Some(f)
}

impl CacheFile {
    /// Reads an on-disk file name `{hash}-{size}-{width}-{height}.{ext}`.
    pub fn from_name_bytes(filename: &[u8]) -> (r: Option<CacheFile>)
        ensures
            r is Some <==> parse_disk_name(filename@) is Some,
            r matches Some(f) ==> parse_disk_name(filename@) == Some(f@) && f.wf(),
    {
        match find_last(filename, 46) {
            None => None,
            Some(i) => {
                proof {
                    crate::text::lemma_last_index(filename@, 46);
                }
                let n = filename.len();
                assert(i < n);
                let name = copy_range(filename, 0, i);
                let ext = copy_range(filename, i + 1, n);
                let p = split(name.as_slice(), 45);
                fields_to_file(&p, ext.as_slice())
            },
        }
    }

    /// Reads an on-disk file name `{hash}-{size}-{width}-{height}.{ext}`.
    pub fn from_filename(filename: &str) -> (r: Option<CacheFile>)
        ensures
            r is Some <==> parse_disk_name(filename.spec_bytes()) is Some,
            r matches Some(f) ==> parse_disk_name(filename.spec_bytes()) == Some(f@) && f.wf(),
    {
        CacheFile::from_name_bytes(filename.as_bytes())
    }

    /// Reads the wire form `{hash}-{size}-{width}-{height}-{ext}`.
    pub fn from_wire_bytes(name: &[u8]) -> (r: Result<CacheFile, FetchParseError>)
        ensures
            r is Ok <==> parse_wire_name(name@) is Some,
            r matches Ok(f) ==> parse_wire_name(name@) == Some(f@) && f.wf(),
    {
        let p = split(name, 45);
        if p.len() < 5 {
            return Err(FetchParseError);
        }
        let ghost q = p@.map_values(|v: Vec<u8>| v@);
        assert(q[4] == p@[4]@);
        match fields_to_file(&p, p[4].as_slice()) {
            Some(f) => Ok(f),
            None => Err(FetchParseError),
        }
    }

    /// Reads the wire form `{hash}-{size}-{width}-{height}-{ext}`.
    pub fn try_from(name: &str) -> (r: Result<CacheFile, FetchParseError>)
        ensures
            r is Ok <==> parse_wire_name(name.spec_bytes()) is Some,
            r matches Ok(f) ==> parse_wire_name(name.spec_bytes()) == Some(f@) && f.wf(),
    {
        CacheFile::from_wire_bytes(name.as_bytes())
    }

    /// The canonical name, with `-` before the extension when `for_api`, else `.`.
    pub fn name_bytes(&self, for_api: bool) -> (r: Vec<u8>)
        ensures
            r@ == name_of(self@, if for_api { 45u8 } else { 46u8 }),
    {
        let mut name = self.hash.to_hex();
        name.push(45);
        push_dec(&mut name, self.info.size);
        name.push(45);
        push_dec(&mut name, self.info.res.0 as u64);
        name.push(45);
        push_dec(&mut name, self.info.res.1 as u64);
        name.push(if for_api { 45 } else { 46 });
        let ext = self.info.typ.extension();
        let mut i: usize = 0;
        let ghost base = name@;
        while i < ext.len()
            invariant
                i <= ext@.len(),
                name@ =~= base + ext@.subrange(0, i as int),
            decreases ext@.len() - i,
        {
            name.push(ext[i]);
            i = i + 1;
            assert(name@ =~= base + ext@.subrange(0, i as int));
        }
        assert(ext@.subrange(0, ext@.len() as int) =~= ext@);
        assert(name@ =~= name_of(self@, if for_api { 45u8 } else { 46u8 }));
        name
    }

    /// The canonical name as a `String`, with `-` before the extension when `for_api`.
    pub fn filename(&self, for_api: bool) -> (r: String)
        ensures
            all_ascii(ext_of(self.info.typ)) ==> r@ == ascii_chars(
                name_of(self@, if for_api { 45u8 } else { 46u8 }),
            ),
    {
        let n = self.name_bytes(for_api);
        proof {
            lemma_name_ascii(self@, if for_api { 45u8 } else { 46u8 });
        }
        ascii_string(n.as_slice())
    }

    /// The file's path under `cache_dir`: `{cache_dir}/{h0h1}/{h2h3}/{name}`.
    pub fn path(&self, cache_dir: &[u8]) -> (r: Vec<u8>)
        ensures
            r@ == path_of(self@, cache_dir@),
    {
        let name = self.name_bytes(false);
        proof {
            crate::hex::lemma_hex_round_trip(self.hash.0@);
        }
        let mut out = copy_range(cache_dir, 0, cache_dir.len());
        out.push(47);
        out.push(name[0]);
        out.push(name[1]);
        out.push(47);
        out.push(name[2]);
        out.push(name[3]);
        out.push(47);
        let ghost base = out@;
        let mut i: usize = 0;
        while i < name.len()
            invariant
                i <= name@.len(),
                out@ =~= base + name@.subrange(0, i as int),
            decreases name@.len() - i,
        {
            out.push(name[i]);
            i = i + 1;
            assert(out@ =~= base + name@.subrange(0, i as int));
        }
        assert(name@.subrange(0, name@.len() as int) =~= name@);
        assert(out@ =~= path_of(self@, cache_dir@));
        out
    }

    /// The 16-bit static range: the first two hash bytes, big-endian.
    pub fn static_range(&self) -> (r: u16)
        ensures
            r as int == self.hash.0@[0] * 256 + self.hash.0@[1],
    {
        self.hash.0[0] as u16 * 256 + self.hash.0[1] as u16
    }

    /// A copy of this description.
    pub fn duplicate(&self) -> (r: CacheFile)
        ensures
            r@ == self@,
            r.wf() == self.wf(),
    {
        let typ = match &self.info.typ {
            FileType::Jpeg => FileType::Jpeg,
            FileType::Png => FileType::Png,
            FileType::Gif => FileType::Gif,
            FileType::WebP => FileType::WebP,
            FileType::Avif => FileType::Avif,
            FileType::JpegXL => FileType::JpegXL,
            FileType::MP4 => FileType::MP4,
            FileType::WebM => FileType::WebM,
            FileType::Unknown(v) => {
                let c = copy_range(v.as_slice(), 0, v.len());
                assert(c@ =~= v@);
                FileType::Unknown(c)
            },
        };
        assert(ext_of(typ) == ext_of(self.info.typ));
        assert(typ is Unknown <==> self.info.typ is Unknown);
        CacheFile { hash: self.hash, info: FileInfo { size: self.info.size, res: self.info.res, typ } }
    }
}

/// The canonical text of a hash reads back as the hash; a text that reads as a hash is
/// that hash's canonical text.
pub proof fn law_hash_text(b: Seq<u8>, s: Seq<u8>)
    requires
        b.len() == 20,
    ensures
        hex_of(b).len() == 40,
        all_hex(hex_of(b)),
        bytes_of_hex(hex_of(b)) == b,
        s.len() == 40 && all_hex(s) ==> bytes_of_hex(s).len() == 20 && hex_of(bytes_of_hex(s))
            == s,
{
    crate::hex::lemma_hex_round_trip(b);
    if s.len() == 40 && all_hex(s) {
        crate::hex::lemma_hex_parse_round_trip(s);
    }
}

proof fn lemma_digits_lack_separators(s: Seq<u8>)
    requires
        all_hex(s) || crate::text::all_digits(s),
    ensures
        lacks(s, 45),
        lacks(s, 46),
{
}

/// The fields part `{hash}-{size}-{width}-{height}` of a canonical name.
pub open spec fn fields_of(a: ArtifactView) -> Seq<u8> {
    hex_of(a.hash) + seq![45u8] + dec_of(a.size as nat) + seq![45u8] + dec_of(a.width as nat)
        + seq![45u8] + dec_of(a.height as nat)
}

proof fn lemma_fields_of(a: ArtifactView)
    requires
        legal(a),
    ensures
        forall|sep: u8| #[trigger] name_of(a, sep) == fields_of(a) + seq![sep] + a.ext,
        segments(fields_of(a), 45) == seq![
            hex_of(a.hash),
            dec_of(a.size as nat),
            dec_of(a.width as nat),
            dec_of(a.height as nat),
        ],
        parse_fields(
            seq![
                hex_of(a.hash),
                dec_of(a.size as nat),
                dec_of(a.width as nat),
                dec_of(a.height as nat),
            ],
            a.ext,
        ) == Some(a),
        parse_fields(
            seq![
                hex_of(a.hash),
                dec_of(a.size as nat),
                dec_of(a.width as nat),
                dec_of(a.height as nat),
                a.ext,
            ],
            a.ext,
        ) == Some(a),
        lacks(a.ext, 46),
        lacks(a.ext, 45),
{
    let h = hex_of(a.hash);
    let sz = dec_of(a.size as nat);
    let w = dec_of(a.width as nat);
    let t = dec_of(a.height as nat);
    crate::hex::lemma_hex_round_trip(a.hash);
    lemma_dec_of(a.size as nat);
    lemma_dec_of(a.width as nat);
    lemma_dec_of(a.height as nat);
    lemma_digits_lack_separators(h);
    lemma_digits_lack_separators(sz);
    lemma_digits_lack_separators(w);
    lemma_digits_lack_separators(t);
    crate::text::lemma_parse_dec_of(a.size as nat, u64::MAX as nat);
    crate::text::lemma_parse_dec_of(a.width as nat, u32::MAX as nat);
    crate::text::lemma_parse_dec_of(a.height as nat, u32::MAX as nat);
    let pre1 = h;
    let pre2 = pre1 + seq![45u8] + sz;
    let pre3 = pre2 + seq![45u8] + w;
    let pre4 = pre3 + seq![45u8] + t;
    lemma_segments_single(h, 45);
    lemma_segments_append(pre1, sz, 45);
    lemma_segments_append(pre2, w, 45);
    lemma_segments_append(pre3, t, 45);
    assert(segments(pre4, 45) =~= seq![h, sz, w, t]);
    assert(pre4 == fields_of(a));
}

/// The canonical name of a legal artifact reads back as that artifact, in its on-disk
/// form and in its wire form; and its path under any root goes through the directories
/// named by the first two and the next two hex digits of its hash.
pub proof fn law_canonical_name(a: ArtifactView, root: Seq<u8>)
    requires
        legal(a),
    ensures
        parse_disk_name(name_of(a, 46)) == Some(a),
        parse_wire_name(name_of(a, 45)) == Some(a),
        path_of(a, root) == root + seq![47u8] + hex_of(a.hash).subrange(0, 2) + seq![47u8]
            + hex_of(a.hash).subrange(2, 4) + seq![47u8] + name_of(a, 46),
{
    lemma_fields_of(a);
    let h = hex_of(a.hash);
    let pre4 = fields_of(a);
    let segs4 = seq![h, dec_of(a.size as nat), dec_of(a.width as nat), dec_of(a.height as nat)];
    // on-disk form
    let d = name_of(a, 46);
    assert(d == pre4 + seq![46u8] + a.ext);
    lemma_last_index_append(pre4, a.ext, 46);
    assert(d.subrange(0, pre4.len() as int) =~= pre4);
    assert(d.subrange(pre4.len() as int + 1, d.len() as int) =~= a.ext);
    // wire form
    let wn = name_of(a, 45);
    assert(wn == pre4 + seq![45u8] + a.ext);
    lemma_segments_append(pre4, a.ext, 45);
    assert(segments(wn, 45) =~= segs4.push(a.ext));
    assert(segs4.push(a.ext) =~= seq![
        h,
        dec_of(a.size as nat),
        dec_of(a.width as nat),
        dec_of(a.height as nat),
        a.ext,
    ]);
    // path
    crate::hex::lemma_hex_round_trip(a.hash);
    assert(d.subrange(0, 2) =~= h.subrange(0, 2));
    assert(d.subrange(2, 4) =~= h.subrange(2, 4));
}

proof fn lemma_name_ascii(a: ArtifactView, sep: u8)
    requires
        sep < 128,
        a.hash.len() == a.hash.len(),
    ensures
        all_ascii(a.ext) ==> all_ascii(name_of(a, sep)),
{
    crate::hex::lemma_hex_ascii(a.hash);
    crate::text::lemma_dec_ascii(a.size as nat);
    crate::text::lemma_dec_ascii(a.width as nat);
    crate::text::lemma_dec_ascii(a.height as nat);
    let n = name_of(a, sep);
    if all_ascii(a.ext) {
        assert forall|i: int| 0 <= i < n.len() implies #[trigger] n[i] < 128 by {
        }
    }
}

} // verus!

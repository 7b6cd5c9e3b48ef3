use vstd::prelude::*;

use crate::request::bytes_eq;
use crate::text::{copy_all, copy_range, find_first, parse_uint, parse_uint_bytes, segments, split, split_once};

verus! {

/// One file of a gallery to download.
#[derive(Debug)]
pub struct GalleryFile {
    pub page: u32,
    pub index: u32,
    pub xres: u32,
    pub sha1_hash: Vec<u8>,
    pub filetype: Vec<u8>,
    pub filename: Vec<u8>,
}

/// [`GalleryFile`] in terms of sequences.
pub struct GalleryFileView {
    pub page: u32,
    pub index: u32,
    pub xres: u32,
    pub sha1_hash: Seq<u8>,
    pub filetype: Seq<u8>,
    pub filename: Seq<u8>,
}

impl View for GalleryFile {
    type V = GalleryFileView;

    open spec fn view(&self) -> GalleryFileView {
        GalleryFileView {
            page: self.page,
            index: self.index,
            xres: self.xres,
            sha1_hash: self.sha1_hash@,
            filetype: self.filetype@,
            filename: self.filename@,
        }
    }
}

/// A number field: its value where it reads as a `u32`, else zero.
pub open spec fn u32_or_zero(s: Seq<u8>) -> u32 {
    match parse_uint(s, u32::MAX as nat) {
        Some(n) => n as u32,
        None => 0,
    }
}

/// A file line `{page} {index} {xres} {sha1} {type} {name}`; fields after the sixth are
/// ignored, and a line with fewer than six describes no file.
pub open spec fn gallery_line(line: Seq<u8>) -> Option<GalleryFileView> {
    let p = segments(line, 32);
    if p.len() >= 6 {
        Some(
            GalleryFileView {
                page: u32_or_zero(p[0]),
                index: u32_or_zero(p[1]),
                xres: u32_or_zero(p[2]),
                sha1_hash: p[3],
                filetype: p[4],
                filename: p[5],
            },
        )
    } else {
        None
    }
}

fn u32_field(s: &[u8]) -> (r: u32)
    ensures
        r == u32_or_zero(s@),
{
    match parse_uint_bytes(s, 4294967295) {
        Some(n) => n as u32,
        None => 0,
    }
}

impl GalleryFile {
    /// Reads a file line `{page} {index} {xres} {sha1} {type} {name}`.
    pub fn parse(line: &[u8]) -> (r: Option<GalleryFile>)
        ensures
            match gallery_line(line@) {
                Some(v) => r matches Some(f) && f@ == v,
                None => r is None,
            },
    {
        let p = split(line, 32);
        let ghost q = p@.map_values(|v: Vec<u8>| v@);
        if p.len() < 6 {
            return None;
        }
        assert(q[0] == p@[0]@ && q[1] == p@[1]@ && q[2] == p@[2]@);
        assert(q[3] == p@[3]@ && q[4] == p@[4]@ && q[5] == p@[5]@);
        Some(
            GalleryFile {
                page: u32_field(p[0].as_slice()),
                index: u32_field(p[1].as_slice()),
                xres: u32_field(p[2].as_slice()),
                sha1_hash: copy_all(p[3].as_slice()),
                filetype: copy_all(p[4].as_slice()),
                filename: copy_all(p[5].as_slice()),
            },
        )
    }
}

/// The first `min(len, 125)` bytes, used to bound the length of a directory name.
pub fn take_first_100_chars(s: &[u8]) -> (r: Vec<u8>)
    ensures
        r@ == s@.subrange(0, if s@.len() < 125 { s@.len() as int } else { 125 }),
{
    let n = if s.len() < 125 { s.len() } else { 125 };
    copy_range(s, 0, n)
}

/// Reading stage of a gallery description.
#[derive(Clone, Copy, Debug, PartialEq, Eq, Structural)]
pub enum MetaStage {
    Header,
    Files,
    Done,
}

/// A gallery to download: header fields, its files, and the trailing information text.
#[derive(Debug)]
pub struct DownloadMeta {
    pub gid: u32,
    pub file_count: u32,
    pub min_res: u32,
    pub title: Vec<u8>,
    pub files: Vec<GalleryFile>,
    pub info: Vec<u8>,
}

/// [`DownloadMeta`] in terms of sequences, with the reading stage.
pub struct MetaView {
    pub gid: u32,
    pub file_count: u32,
    pub min_res: u32,
    pub title: Seq<u8>,
    pub files: Seq<GalleryFileView>,
    pub info: Seq<u8>,
    pub stage: MetaStage,
}

impl DownloadMeta {
    pub open spec fn view_at(&self, stage: MetaStage) -> MetaView {
        MetaView {
            gid: self.gid,
            file_count: self.file_count,
            min_res: self.min_res,
            title: self.title@,
            files: self.files@.map_values(|f: GalleryFile| f@),
            info: self.info@,
            stage,
        }
    }
}

pub open spec fn lit_filelist() -> Seq<u8> {
    seq![70u8, 73, 76, 69, 76, 73, 83, 84]
}

pub open spec fn lit_information() -> Seq<u8> {
    seq![73u8, 78, 70, 79, 82, 77, 65, 84, 73, 79, 78]
}

pub open spec fn lit_gid() -> Seq<u8> {
    seq![71u8, 73, 68]
}

pub open spec fn lit_filecount() -> Seq<u8> {
    seq![70u8, 73, 76, 69, 67, 79, 85, 78, 84]
}

pub open spec fn lit_minxres() -> Seq<u8> {
    seq![77u8, 73, 78, 88, 82, 69, 83]
}

pub open spec fn lit_title() -> Seq<u8> {
    seq![84u8, 73, 84, 76, 69]
}

/// The lines joined with line breaks.
pub open spec fn join_lines(lines: Seq<Seq<u8>>) -> Seq<u8>
    decreases lines.len(),
{
    if lines.len() == 0 {
        Seq::empty()
    } else if lines.len() == 1 {
        lines[0]
    } else {
        join_lines(lines.drop_last()) + seq![10u8] + lines.last()
    }
}

/// The effect of line `k` of `lines` on `m`. In the header, `KEY value` lines set fields,
/// until `FILELIST`; after it each line that describes a file adds it, until `INFORMATION`,
/// after which the rest of the text is the information.
pub open spec fn meta_step(m: MetaView, lines: Seq<Seq<u8>>, k: int) -> MetaView {
    let line = lines[k];
    match m.stage {
        MetaStage::Header => if line == lit_filelist() {
            MetaView { stage: MetaStage::Files, ..m }
        } else {
            match split_once(line, 32) {
                Some((key, value)) => if key == lit_gid() {
                    MetaView { gid: u32_or_zero(value), ..m }
                } else if key == lit_filecount() {
                    MetaView { file_count: u32_or_zero(value), ..m }
                } else if key == lit_minxres() {
                    MetaView { min_res: u32_or_zero(value), ..m }
                } else if key == lit_title() {
                    MetaView { title: value, ..m }
                } else {
                    m
                },
                None => m,
            }
        },
        MetaStage::Files => if line == lit_information() {
            MetaView {
                info: join_lines(lines.subrange(k + 1, lines.len() as int)),
                stage: MetaStage::Done,
                ..m
            }
        } else {
            match gallery_line(line) {
                Some(f) => MetaView { files: m.files.push(f), ..m },
                None => m,
            }
        },
        MetaStage::Done => m,
    }
}

/// The description after the first `n` lines.
pub open spec fn meta_upto(lines: Seq<Seq<u8>>, n: int) -> MetaView
    decreases n,
{
    if n <= 0 {
        MetaView {
            gid: 0,
            file_count: 0,
            min_res: 0,
            title: Seq::empty(),
            files: Seq::empty(),
            info: Seq::empty(),
            stage: MetaStage::Header,
        }
    } else {
        meta_step(meta_upto(lines, n - 1), lines, n - 1)
    }
}

/// What reading a gallery description gives.
pub open spec fn parse_meta(data: Seq<u8>) -> MetaView {
    let lines = segments(data, 10);
    meta_upto(lines, lines.len() as int)
}

fn lit(v: Vec<u8>) -> (r: Vec<u8>)
    ensures
        r == v,
{
    v
}

fn join_from(parts: &Vec<Vec<u8>>, start: usize) -> (r: Vec<u8>)
    requires
        start <= parts@.len(),
    ensures
        r@ == join_lines(
            parts@.map_values(|v: Vec<u8>| v@).subrange(start as int, parts@.len() as int),
        ),
{
    let ghost all = parts@.map_values(|v: Vec<u8>| v@);
    let mut out: Vec<u8> = Vec::new();
    let mut i: usize = start;
    assert(all.subrange(start as int, start as int) =~= Seq::<Seq<u8>>::empty());
    while i < parts.len()
        invariant
            start <= i <= parts@.len(),
            all == parts@.map_values(|v: Vec<u8>| v@),
            out@ == join_lines(all.subrange(start as int, i as int)),
        decreases parts@.len() - i,
    {
        if i > start {
            out.push(10);
        }
        let piece = parts[i].as_slice();
        let ghost base = out@;
        let mut j: usize = 0;
        while j < piece.len()
            invariant
                j <= piece@.len(),
                out@ =~= base + piece@.subrange(0, j as int),
            decreases piece@.len() - j,
        {
            out.push(piece[j]);
            j = j + 1;
            assert(out@ =~= base + piece@.subrange(0, j as int));
        }
        assert(piece@.subrange(0, piece@.len() as int) =~= piece@);
        let ghost next = all.subrange(start as int, i + 1);
        assert(next.drop_last() =~= all.subrange(start as int, i as int));
        assert(next.last() == parts@[i as int]@);
        i = i + 1;
    }
    out
}

impl DownloadMeta {
    /// Reads a gallery description: header lines `KEY value` up to `FILELIST`, then file
    /// lines up to `INFORMATION`, then free text.
    pub fn parse(data: &[u8]) -> (r: DownloadMeta)
        ensures
            ({
                let v = parse_meta(data@);
                &&& r.gid == v.gid
                &&& r.file_count == v.file_count
                &&& r.min_res == v.min_res
                &&& r.title@ == v.title
                &&& r.files@.map_values(|f: GalleryFile| f@) == v.files
                &&& r.info@ == v.info
            }),
    {
        let lines = split(data, 10);
        let ghost all = lines@.map_values(|v: Vec<u8>| v@);
        let filelist = lit(vec![70u8, 73, 76, 69, 76, 73, 83, 84]);
        assert(filelist@ =~= lit_filelist());
        let information = lit(vec![73u8, 78, 70, 79, 82, 77, 65, 84, 73, 79, 78]);
        assert(information@ =~= lit_information());
        let k_gid = lit(vec![71u8, 73, 68]);
        assert(k_gid@ =~= lit_gid());
        let k_count = lit(vec![70u8, 73, 76, 69, 67, 79, 85, 78, 84]);
        assert(k_count@ =~= lit_filecount());
        let k_minxres = lit(vec![77u8, 73, 78, 88, 82, 69, 83]);
        assert(k_minxres@ =~= lit_minxres());
        let k_title = lit(vec![84u8, 73, 84, 76, 69]);
        assert(k_title@ =~= lit_title());
        let mut meta = DownloadMeta {
            gid: 0,
            file_count: 0,
            min_res: 0,
            title: Vec::new(),
            files: Vec::new(),
            info: Vec::new(),
        };
        let mut stage = MetaStage::Header;
        assert(meta.files@.map_values(|f: GalleryFile| f@) =~= Seq::<GalleryFileView>::empty());
        let mut i: usize = 0;
        while i < lines.len()
            invariant
                i <= lines@.len(),
                all == lines@.map_values(|v: Vec<u8>| v@),
                all == segments(data@, 10),
                filelist@ == lit_filelist(),
                information@ == lit_information(),
                k_gid@ == lit_gid(),
                k_count@ == lit_filecount(),
                k_minxres@ == lit_minxres(),
                k_title@ == lit_title(),
                meta.view_at(stage) == meta_upto(all, i as int),
            decreases lines@.len() - i,
        {
            let line = lines[i].as_slice();
            let ghost before = meta.view_at(stage);
            assert(all[i as int] == line@);
            match stage {
                MetaStage::Header => {
                    if bytes_eq(line, filelist.as_slice()) {
                        stage = MetaStage::Files;
                    } else {
                        match find_first(line, 32) {
                            Some(sp) => {
                                let n = line.len();
                                let key = copy_range(line, 0, sp);
                                let value = copy_range(line, sp + 1, n);
                                if bytes_eq(key.as_slice(), k_gid.as_slice()) {
                                    meta.gid = u32_field(value.as_slice());
                                } else if bytes_eq(key.as_slice(), k_count.as_slice()) {
                                    meta.file_count = u32_field(value.as_slice());
                                } else if bytes_eq(key.as_slice(), k_minxres.as_slice()) {
                                    meta.min_res = u32_field(value.as_slice());
                                } else if bytes_eq(key.as_slice(), k_title.as_slice()) {
                                    meta.title = value;
                                }
                            },
                            None => {},
                        }
                    }
                },
                MetaStage::Files => {
                    if bytes_eq(line, information.as_slice()) {
                        meta.info = join_from(&lines, i + 1);
                        stage = MetaStage::Done;
                    } else {
                        match GalleryFile::parse(line) {
                            Some(f) => {
                                let ghost fs = meta.files@;
                                meta.files.push(f);
                                assert(meta.files@.map_values(|g: GalleryFile| g@) =~= fs.map_values(
                                    |g: GalleryFile| g@,
                                ).push(f@));
                            },
                            None => {},
                        }
                    }
                },
                MetaStage::Done => {},
            }
            assert(meta.view_at(stage) == meta_step(before, all, i as int));
            i = i + 1;
        }
        meta
    }
}

} // verus!

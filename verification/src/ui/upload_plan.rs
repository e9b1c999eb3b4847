//! What an upload sends: the files in order, their names on the watch, the
//! progress line shown while each is prepared, and the import header that
//! announces them. Preparing the images themselves is the caller's part.

use vstd::prelude::*;
use vstd::string::StringExecFns;

use super::state::{ChapterItem, UiState, UploadFile, UploadItem, UploadMode, WatchSettings};
use crate::base64::{b64_encode, base64_encode, chunk_text, chunks, CHUNK_SIZE};
use crate::seqs::string_views;
use crate::text::{decimal, decimal_string, is_blank, trim, trim_str};

verus! {

/// Where the image of a planned file comes from.
#[derive(Debug, Clone, Copy, PartialEq, Eq, Structural)]
pub enum FileSource {
    /// The cover of upload item `i`.
    ItemCover(usize),
    /// Page `j` of upload item `i`.
    ItemPage(usize, usize),
    /// The book cover of a multi-chapter upload.
    MultiCover,
    /// Page `fi` of chapter `ci`.
    ChapterPage(usize, usize),
    /// Page `k` of the chapter being uploaded on its own.
    Page(usize),
}

impl FileSource {
    /// Pages are prepared as pages (transcoded where the watch app asks
    /// for it); covers are not.
    pub open spec fn spec_is_page(self) -> bool {
        !(self is ItemCover || self is MultiCover)
    }

    pub fn is_page(&self) -> (b: bool)
        ensures
            b == self.spec_is_page(),
    {
        match self {
            FileSource::ItemCover(_) | FileSource::MultiCover => false,
            _ => true,
        }
    }
}

/// A file to send: its key on the watch, its image, and the progress line
/// to show while preparing it.
pub struct PlannedFile {
    pub key: String,
    pub source: FileSource,
    pub progress: String,
}

/// The name of page `n` (counting from 1): `n`, or `n.bin` when the watch
/// app takes pre-transcoded pages.
pub open spec fn page_name(n: nat, pre_transcode: bool) -> Seq<char> {
    if pre_transcode {
        decimal(n) + ".bin"@
    } else {
        decimal(n)
    }
}

fn page_name_of(n: usize, pre_transcode: bool) -> (s: String)
    ensures
        s@ == page_name(n as nat, pre_transcode),
{
    let s = decimal_string(n as u64);
    if pre_transcode {
        proof {
            reveal_strlit(".bin");
        }
        s.concat(".bin")
    } else {
        s
    }
}

/// The files of one upload item: its cover, then its pages `1, 2, ...`.
pub open spec fn item_entries(item: UploadItem, i: int, pre: bool) -> Seq<(Seq<char>, FileSource)> {
    (if item.cover is Some {
        seq![("cover"@, FileSource::ItemCover(i as usize))]
    } else {
        Seq::empty()
    }) + Seq::new(
        item.files@.len(),
        |j: int| (page_name((j + 1) as nat, pre), FileSource::ItemPage(i as usize, j as usize)),
    )
}

/// The files of a single-book upload: each item's in turn.
pub open spec fn single_entries(items: Seq<UploadItem>, pre: bool) -> Seq<(Seq<char>, FileSource)>
    decreases items.len(),
{
    if items.len() == 0 {
        Seq::empty()
    } else {
        single_entries(items.drop_last(), pre) + item_entries(
            items.last(),
            items.len() - 1,
            pre,
        )
    }
}

/// The progress line of the `k`-th file (from 0) of a single-book upload.
pub open spec fn single_progress(k: int, source: FileSource) -> Seq<char> {
    if source is ItemCover {
        "正在处理 封面 ("@ + decimal((k + 1) as nat) + "/-)"@
    } else {
        "正在处理 ("@ + decimal((k + 1) as nat) + "/-)"@
    }
}

/// `out` lists `entries` with the progress lines `progress` gives.
pub open spec fn plans(
    out: Seq<PlannedFile>,
    entries: Seq<(Seq<char>, FileSource)>,
    progress: spec_fn(int, FileSource) -> Seq<char>,
) -> bool {
    &&& out.len() == entries.len()
    &&& forall|k: int|
        0 <= k < out.len() ==> {
            &&& (#[trigger] out[k]).key@ == entries[k].0
            &&& out[k].source == entries[k].1
            &&& out[k].progress@ == progress(k, entries[k].1)
        }
}

pub open spec fn single_progress_fn() -> spec_fn(int, FileSource) -> Seq<char> {
    |k: int, s: FileSource| single_progress(k, s)
}

fn single_progress_of(k: usize, cover: bool) -> (s: String)
    requires
        k < usize::MAX,
    ensures
        cover ==> s@ == single_progress(k as int, FileSource::ItemCover(0)),
        !cover ==> s@ == single_progress(k as int, FileSource::ItemPage(0, 0)),
{
    proof {
        reveal_strlit("/-)");
    }
    let head = if cover {
        String::from_str("正在处理 封面 (")
    } else {
        String::from_str("正在处理 (")
    };
    head.concat(decimal_string((k + 1) as u64).as_str()).concat("/-)")
}

/// The files of a single-book upload, in order: for each item its cover
/// (as `cover`), then its pages numbered from 1.
pub fn plan_single(items: &Vec<UploadItem>, pre_transcode: bool) -> (out: Vec<PlannedFile>)
    requires
        single_entries(items@, pre_transcode).len() < usize::MAX,
    ensures
        plans(out@, single_entries(items@, pre_transcode), single_progress_fn()),
{
    let mut out: Vec<PlannedFile> = Vec::new();
    let mut i: usize = 0;
    while i < items.len()
        invariant
            i <= items@.len(),
            single_entries(items@, pre_transcode).len() < usize::MAX,
            plans(out@, single_entries(items@.take(i as int), pre_transcode), single_progress_fn()),
        decreases items.len() - i,
    {
        let ghost before = single_entries(items@.take(i as int), pre_transcode);
        assert(items@.take(i + 1).drop_last() =~= items@.take(i as int));
        assert(single_entries(items@.take(i + 1), pre_transcode) == before + item_entries(
            items@[i as int],
            i as int,
            pre_transcode,
        ));
        proof {
            lemma_single_entries_prefix(items@, i as int + 1, pre_transcode);
        }
        let item = &items[i];
        let ghost cover_part: Seq<(Seq<char>, FileSource)> = if items@[i as int].cover is Some {
            seq![("cover"@, FileSource::ItemCover(i))]
        } else {
            Seq::empty()
        };
        if item.cover.is_some() {
            let k = out.len();
            proof {
                reveal_strlit("cover");
            }
            out.push(
                PlannedFile {
                    key: String::from_str("cover"),
                    source: FileSource::ItemCover(i),
                    progress: single_progress_of(k, true),
                },
            );
        }
        assert(plans(out@, before + cover_part, single_progress_fn()));
        let mut j: usize = 0;
        while j < item.files.len()
            invariant
                i < items@.len(),
                *item == items@[i as int],
                j <= item.files@.len(),
                single_entries(items@, pre_transcode).len() < usize::MAX,
                (before + cover_part + Seq::new(
                    item.files@.len(),
                    |jj: int| (page_name((jj + 1) as nat, pre_transcode), FileSource::ItemPage(i, jj as usize)),
                )).len() <= single_entries(items@, pre_transcode).len(),
                plans(
                    out@,
                    before + cover_part + Seq::new(
                        j as nat,
                        |jj: int| (page_name((jj + 1) as nat, pre_transcode), FileSource::ItemPage(i, jj as usize)),
                    ),
                    single_progress_fn(),
                ),
            decreases item.files.len() - j,
        {
            let k = out.len();
            let ghost prev = before + cover_part + Seq::new(
                j as nat,
                |jj: int| (page_name((jj + 1) as nat, pre_transcode), FileSource::ItemPage(i, jj as usize)),
            );
            let ghost next = before + cover_part + Seq::new(
                (j + 1) as nat,
                |jj: int| (page_name((jj + 1) as nat, pre_transcode), FileSource::ItemPage(i, jj as usize)),
            );
            assert(next =~= prev.push((page_name((j + 1) as nat, pre_transcode), FileSource::ItemPage(i, j))));
            out.push(
                PlannedFile {
                    key: page_name_of(j + 1, pre_transcode),
                    source: FileSource::ItemPage(i, j),
                    progress: single_progress_of(k, false),
                },
            );
            j = j + 1;
        }
        assert(before + cover_part + Seq::new(
            item.files@.len(),
            |jj: int| (page_name((jj + 1) as nat, pre_transcode), FileSource::ItemPage(i, jj as usize)),
        ) =~= single_entries(items@.take(i + 1), pre_transcode));
        i = i + 1;
    }
    assert(items@.take(items@.len() as int) =~= items@);
    out
}

/// The files of a prefix come first.
pub proof fn lemma_single_entries_prefix(items: Seq<UploadItem>, n: int, pre: bool)
    requires
        0 <= n <= items.len(),
    ensures
        single_entries(items.take(n), pre).len() <= single_entries(items, pre).len(),
    decreases items.len(),
{
    if n < items.len() {
        assert(items.drop_last().take(n) =~= items.take(n));
        lemma_single_entries_prefix(items.drop_last(), n, pre);
    } else {
        assert(items.take(n) =~= items);
    }
}

/// The folder of chapter `ci` (from 0) on the watch: its number, a
/// full-width space, and its trimmed name (`第N章` when blank).
pub open spec fn chapter_folder(ci: nat, name: Seq<char>) -> Seq<char> {
    if trim(name).len() == 0 {
        decimal(ci + 1) + "　第"@ + decimal(ci + 1) + "章"@
    } else {
        decimal(ci + 1) + "　"@ + trim(name)
    }
}

/// The title of chapter `ci` in the header: its name as entered, or `第N章`
/// when blank.
pub open spec fn chapter_title(ci: nat, name: Seq<char>) -> Seq<char> {
    if trim(name).len() == 0 {
        "第"@ + decimal(ci + 1) + "章"@
    } else {
        name
    }
}

/// The files of chapter `ci`: its pages, under the chapter's folder.
pub open spec fn chapter_entries(ch: ChapterItem, ci: int, pre: bool) -> Seq<(Seq<char>, FileSource)> {
    Seq::new(
        ch.files@.len(),
        |fi: int|
            (
                chapter_folder(ci as nat, ch.name@) + "/"@ + page_name((fi + 1) as nat, pre),
                FileSource::ChapterPage(ci as usize, fi as usize),
            ),
    )
}

/// The chapters' files in turn (chapters without pages add none).
pub open spec fn chapters_entries(chs: Seq<ChapterItem>, pre: bool) -> Seq<(Seq<char>, FileSource)>
    decreases chs.len(),
{
    if chs.len() == 0 {
        Seq::empty()
    } else {
        chapters_entries(chs.drop_last(), pre) + chapter_entries(chs.last(), chs.len() - 1, pre)
    }
}

/// The files of a multi-chapter upload: the book cover, if any, then the
/// chapters' pages.
pub open spec fn multi_entries(cover: bool, chs: Seq<ChapterItem>, pre: bool) -> Seq<
    (Seq<char>, FileSource),
> {
    (if cover {
        seq![("cover"@, FileSource::MultiCover)]
    } else {
        Seq::empty()
    }) + chapters_entries(chs, pre)
}

/// The progress line of a file of a multi-chapter upload.
pub open spec fn multi_progress(chs: Seq<ChapterItem>, source: FileSource) -> Seq<char> {
    match source {
        FileSource::ChapterPage(ci, fi) => "正在处理 章节"@ + decimal((ci + 1) as nat) + " ("@
            + decimal((fi + 1) as nat) + "/"@ + decimal(chs[ci as int].files@.len()) + ")"@,
        _ => "正在处理 封面"@,
    }
}

pub open spec fn multi_progress_fn(chs: Seq<ChapterItem>) -> spec_fn(int, FileSource) -> Seq<char> {
    |k: int, s: FileSource| multi_progress(chs, s)
}

/// The header's chapter list: for each chapter with pages, its title and
/// its page names.
pub open spec fn header_chapters(chs: Seq<ChapterItem>, pre: bool) -> Seq<(Seq<char>, Seq<Seq<char>>)>
    decreases chs.len(),
{
    if chs.len() == 0 {
        Seq::empty()
    } else if chs.last().files@.len() == 0 {
        header_chapters(chs.drop_last(), pre)
    } else {
        header_chapters(chs.drop_last(), pre).push(
            (
                chapter_title((chs.len() - 1) as nat, chs.last().name@),
                Seq::new(chs.last().files@.len(), |fi: int| page_name((fi + 1) as nat, pre)),
            ),
        )
    }
}

/// The text of each chapter's title and page names.
pub open spec fn chapter_list_view(v: Seq<(String, Vec<String>)>) -> Seq<(Seq<char>, Seq<Seq<char>>)> {
    v.map_values(|e: (String, Vec<String>)| (e.0@, string_views(e.1@)))
}

fn folder_of(ci: usize, name: &str) -> (s: String)
    requires
        ci < usize::MAX,
    ensures
        s@ == chapter_folder(ci as nat, name@),
{
    proof {
        reveal_strlit("　第");
        reveal_strlit("章");
        reveal_strlit("　");
    }
    let n = decimal_string((ci + 1) as u64);
    if is_blank(name) {
        n.concat("　第").concat(decimal_string((ci + 1) as u64).as_str()).concat("章")
    } else {
        n.concat("　").concat(trim_str(name).as_str())
    }
}

fn title_of(ci: usize, name: &String) -> (s: String)
    requires
        ci < usize::MAX,
    ensures
        s@ == chapter_title(ci as nat, name@),
{
    proof {
        reveal_strlit("第");
        reveal_strlit("章");
    }
    if is_blank(name.as_str()) {
        String::from_str("第").concat(decimal_string((ci + 1) as u64).as_str()).concat("章")
    } else {
        name.clone()
    }
}

fn multi_progress_of(ci: usize, fi: usize, n: usize) -> (s: String)
    requires
        ci < usize::MAX,
        fi < usize::MAX,
    ensures
        s@ == "正在处理 章节"@ + decimal((ci + 1) as nat) + " ("@ + decimal((fi + 1) as nat) + "/"@
            + decimal(n as nat) + ")"@,
{
    String::from_str("正在处理 章节").concat(decimal_string((ci + 1) as u64).as_str()).concat(
        " (",
    ).concat(decimal_string((fi + 1) as u64).as_str()).concat("/").concat(
        decimal_string(n as u64).as_str(),
    ).concat(")")
}

/// The chapters' part grows chapter by chapter.
pub proof fn lemma_chapters_entries_prefix(chs: Seq<ChapterItem>, n: int, pre: bool)
    requires
        0 <= n <= chs.len(),
    ensures
        chapters_entries(chs.take(n), pre).len() <= chapters_entries(chs, pre).len(),
    decreases chs.len(),
{
    if n < chs.len() {
        assert(chs.drop_last().take(n) =~= chs.take(n));
        lemma_chapters_entries_prefix(chs.drop_last(), n, pre);
    } else {
        assert(chs.take(n) =~= chs);
    }
}

/// The files of a multi-chapter upload and the header's chapter list:
/// the book cover first (as `cover`), then, for each chapter with pages,
/// its pages under the chapter's folder.
pub fn plan_multi(has_cover: bool, chapters: &Vec<ChapterItem>, pre_transcode: bool) -> (r: (
    Vec<PlannedFile>,
    Vec<(String, Vec<String>)>,
))
    requires
        multi_entries(has_cover, chapters@, pre_transcode).len() < usize::MAX,
        chapters@.len() < usize::MAX,
    ensures
        plans(r.0@, multi_entries(has_cover, chapters@, pre_transcode), multi_progress_fn(chapters@)),
        chapter_list_view(r.1@) == header_chapters(chapters@, pre_transcode),
{
    let mut out: Vec<PlannedFile> = Vec::new();
    let mut heads: Vec<(String, Vec<String>)> = Vec::new();
    let ghost cover_part: Seq<(Seq<char>, FileSource)> = if has_cover {
        seq![("cover"@, FileSource::MultiCover)]
    } else {
        Seq::empty()
    };
    proof {
        reveal_strlit("cover");
        reveal_strlit("正在处理 封面");
    }
    if has_cover {
        out.push(
            PlannedFile {
                key: String::from_str("cover"),
                source: FileSource::MultiCover,
                progress: String::from_str("正在处理 封面"),
            },
        );
    }
    assert(chapters_entries(chapters@.take(0), pre_transcode) =~= Seq::<(Seq<char>, FileSource)>::empty());
    assert(cover_part + chapters_entries(chapters@.take(0), pre_transcode) =~= cover_part);
    assert(chapter_list_view(heads@) =~= header_chapters(chapters@.take(0), pre_transcode));
    let mut ci: usize = 0;
    while ci < chapters.len()
        invariant
            ci <= chapters@.len() < usize::MAX,
            multi_entries(has_cover, chapters@, pre_transcode).len() < usize::MAX,
            cover_part == (if has_cover {
                seq![("cover"@, FileSource::MultiCover)]
            } else {
                Seq::<(Seq<char>, FileSource)>::empty()
            }),
            plans(
                out@,
                cover_part + chapters_entries(chapters@.take(ci as int), pre_transcode),
                multi_progress_fn(chapters@),
            ),
            chapter_list_view(heads@) == header_chapters(chapters@.take(ci as int), pre_transcode),
        decreases chapters.len() - ci,
    {
        let ghost before = cover_part + chapters_entries(chapters@.take(ci as int), pre_transcode);
        assert(chapters@.take(ci + 1).drop_last() =~= chapters@.take(ci as int));
        assert(chapters@.take(ci + 1).last() == chapters@[ci as int]);
        proof {
            lemma_chapters_entries_prefix(chapters@, ci + 1, pre_transcode);
        }
        let ch = &chapters[ci];
        let ghost full = before + chapter_entries(chapters@[ci as int], ci as int, pre_transcode);
        assert(full == cover_part + chapters_entries(chapters@.take(ci + 1), pre_transcode));
        if ch.files.len() > 0 {
            let folder = folder_of(ci, ch.name.as_str());
            let mut names: Vec<String> = Vec::new();
            let mut fi: usize = 0;
            while fi < ch.files.len()
                invariant
                    ci < chapters@.len() < usize::MAX,
                    *ch == chapters@[ci as int],
                    fi <= ch.files@.len(),
                    folder@ == chapter_folder(ci as nat, ch.name@),
                    full.len() <= multi_entries(has_cover, chapters@, pre_transcode).len(),
                    multi_entries(has_cover, chapters@, pre_transcode).len() < usize::MAX,
                    full == before + chapter_entries(chapters@[ci as int], ci as int, pre_transcode),
                    plans(out@, before + chapter_entries(chapters@[ci as int], ci as int, pre_transcode).take(fi as int), multi_progress_fn(chapters@)),
                    string_views(names@) == Seq::new(fi as nat, |j: int| page_name((j + 1) as nat, pre_transcode)),
                decreases ch.files.len() - fi,
            {
                let ghost ce = chapter_entries(chapters@[ci as int], ci as int, pre_transcode);
                assert(ce.take(fi + 1) =~= ce.take(fi as int).push(ce[fi as int]));
                assert(before + ce.take(fi + 1) =~= (before + ce.take(fi as int)).push(ce[fi as int]));
                let name = page_name_of(fi + 1, pre_transcode);
                proof {
                    reveal_strlit("/");
                }
                let key = folder.clone().concat("/").concat(name.as_str());
                let progress = multi_progress_of(ci, fi, ch.files.len());
                out.push(PlannedFile { key, source: FileSource::ChapterPage(ci, fi), progress });
                let ghost nb = names@;
                let ghost nv = name@;
                assert(string_views(nb).len() == nb.len());
                assert(nb.len() == fi);
                names.push(name);
                assert forall|j: int| 0 <= j < fi + 1 implies #[trigger] string_views(names@)[j]
                    == page_name((j + 1) as nat, pre_transcode) by {
                    if j < fi {
                        assert(names@[j] == nb[j]);
                        assert(string_views(nb)[j] == page_name((j + 1) as nat, pre_transcode));
                    } else {
                        assert(names@[j]@ == nv);
                    }
                }
                assert(string_views(names@) =~= Seq::new((fi + 1) as nat, |j: int| page_name((j + 1) as nat, pre_transcode)));
                fi = fi + 1;
            }
            assert(chapter_entries(chapters@[ci as int], ci as int, pre_transcode).take(fi as int)
                =~= chapter_entries(chapters@[ci as int], ci as int, pre_transcode));
            let title = title_of(ci, &ch.name);
            heads.push((title, names));
            assert(chapter_list_view(heads@) =~= header_chapters(chapters@.take(ci + 1), pre_transcode));
        } else {
            assert(chapter_entries(chapters@[ci as int], ci as int, pre_transcode) =~= Seq::<(Seq<char>, FileSource)>::empty());
            assert(full =~= before);
            assert(chapter_list_view(heads@) =~= header_chapters(chapters@.take(ci + 1), pre_transcode));
        }
        ci = ci + 1;
    }
    assert(chapters@.take(chapters@.len() as int) =~= chapters@);
    (out, heads)
}

/// The files of one chapter uploaded on its own: its pages numbered from 1.
pub open spec fn serial_entries(n: nat, pre: bool) -> Seq<(Seq<char>, FileSource)> {
    Seq::new(n, |k: int| (page_name((k + 1) as nat, pre), FileSource::Page(k as usize)))
}

/// The progress line of page `k` (from 0) of `n`.
pub open spec fn serial_progress(k: int, n: nat) -> Seq<char> {
    "正在处理 "@ + decimal((k + 1) as nat) + "/"@ + decimal(n)
}

pub open spec fn serial_progress_fn(n: nat) -> spec_fn(int, FileSource) -> Seq<char> {
    |k: int, s: FileSource| serial_progress(k, n)
}

/// The pages of a chapter uploaded on its own.
pub fn plan_serial(files: &Vec<UploadFile>, pre_transcode: bool) -> (out: Vec<PlannedFile>)
    ensures
        plans(out@, serial_entries(files@.len(), pre_transcode), serial_progress_fn(files@.len())),
{
    let mut out: Vec<PlannedFile> = Vec::new();
    let n = files.len();
    let mut k: usize = 0;
    while k < n
        invariant
            n == files@.len(),
            k <= n,
            plans(out@, serial_entries(n as nat, pre_transcode).take(k as int), serial_progress_fn(n as nat)),
        decreases n - k,
    {
        let ghost e = serial_entries(n as nat, pre_transcode);
        assert(e.take(k + 1) =~= e.take(k as int).push(e[k as int]));
        proof {
            reveal_strlit("正在处理 ");
            reveal_strlit("/");
        }
        let progress = String::from_str("正在处理 ").concat(decimal_string((k + 1) as u64).as_str()).concat(
            "/",
        ).concat(decimal_string(n as u64).as_str());
        out.push(
            PlannedFile {
                key: page_name_of(k + 1, pre_transcode),
                source: FileSource::Page(k),
                progress,
            },
        );
        k = k + 1;
    }
    assert(serial_entries(n as nat, pre_transcode).take(n as int) =~= serial_entries(n as nat, pre_transcode));
    out
}

/// How the import header lays the files out.
pub enum HeaderLayout {
    /// One book: the file names in order.
    Single { files: Vec<String> },
    /// One chapter sent on its own, as part of a series.
    Serial { files: Vec<String>, page_count: usize },
    /// A book of chapters: each chapter's title and page names.
    Multi { chapters: Vec<(String, Vec<String>)> },
}

/// The import header: the comic's name and its layout.
pub struct ImportHeader {
    pub name: String,
    pub layout: HeaderLayout,
}

/// An upload, planned: the header and the files in sending order.
pub struct UploadPlan {
    pub header: ImportHeader,
    pub files: Vec<PlannedFile>,
}

/// The keys of planned files.
pub open spec fn keys_of(files: Seq<PlannedFile>) -> Seq<Seq<char>> {
    files.map_values(|f: PlannedFile| f.key@)
}

fn keys(files: &Vec<PlannedFile>) -> (r: Vec<String>)
    ensures
        string_views(r@) == keys_of(files@),
{
    let mut r: Vec<String> = Vec::new();
    let mut i: usize = 0;
    while i < files.len()
        invariant
            i <= files@.len(),
            string_views(r@) == keys_of(files@).take(i as int),
        decreases files.len() - i,
    {
        let ghost rb = r@;
        assert(string_views(rb).len() == rb.len());
        r.push(files[i].key.clone());
        assert forall|j: int| 0 <= j < i + 1 implies #[trigger] string_views(r@)[j] == keys_of(files@)[j] by {
            if j < i {
                assert(r@[j] == rb[j]);
                assert(string_views(rb)[j] == keys_of(files@).take(i as int)[j]);
            }
        }
        assert(string_views(r@) =~= keys_of(files@).take(i + 1));
        i = i + 1;
    }
    assert(keys_of(files@).take(i as int) =~= keys_of(files@));
    r
}

/// The comic's name for an upload: the name field, trimmed; when blank,
/// the first item's comic name (empty without items).
pub open spec fn upload_comic_name(input: Seq<char>, items: Seq<UploadItem>) -> Seq<char> {
    if trim(input).len() == 0 {
        if items.len() > 0 {
            items[0].comic_name@
        } else {
            Seq::empty()
        }
    } else {
        trim(input)
    }
}

/// The number of files of the upload the state describes.
pub open spec fn upload_file_count(s: UiState, pre: bool) -> nat {
    match s.upload_mode {
        UploadMode::Single => single_entries(s.upload_items@, pre).len(),
        UploadMode::Multi => multi_entries(s.multi_cover is Some, s.upload_chapters@, pre).len(),
    }
}

/// Plans the upload the state describes, with the watch app's choice of
/// pre-transcoded pages: in single-book mode the items' covers and pages,
/// with the file names as the header's list; in multi-chapter mode the book
/// cover and the chapters' pages, with the chapter list as the header's.
pub fn plan_upload(state: &UiState, pre_transcode: bool) -> (plan: UploadPlan)
    requires
        upload_file_count(*state, pre_transcode) < usize::MAX,
        state.upload_chapters@.len() < usize::MAX,
    ensures
        plan.header.name@ == upload_comic_name(state.upload_comic_name_input@, state.upload_items@),
        state.upload_mode is Single ==> {
            &&& plans(plan.files@, single_entries(state.upload_items@, pre_transcode), single_progress_fn())
            &&& plan.header.layout matches HeaderLayout::Single { files } && string_views(files@)
                == keys_of(plan.files@)
        },
        state.upload_mode is Multi ==> {
            &&& plans(
                plan.files@,
                multi_entries(state.multi_cover is Some, state.upload_chapters@, pre_transcode),
                multi_progress_fn(state.upload_chapters@),
            )
            &&& plan.header.layout matches HeaderLayout::Multi { chapters } && chapter_list_view(
                chapters@,
            ) == header_chapters(state.upload_chapters@, pre_transcode)
        },
{
    let name = if is_blank(state.upload_comic_name_input.as_str()) {
        if state.upload_items.len() > 0 {
            state.upload_items[0].comic_name.clone()
        } else {
            String::new()
        }
    } else {
        trim_str(state.upload_comic_name_input.as_str())
    };
    match state.upload_mode {
        UploadMode::Single => {
            let files = plan_single(&state.upload_items, pre_transcode);
            let names = keys(&files);
            UploadPlan { header: ImportHeader { name, layout: HeaderLayout::Single { files: names } }, files }
        },
        UploadMode::Multi => {
            let (files, chapters) = plan_multi(
                state.multi_cover.is_some(),
                &state.upload_chapters,
                pre_transcode,
            );
            UploadPlan { header: ImportHeader { name, layout: HeaderLayout::Multi { chapters } }, files }
        },
    }
}

/// Plans the upload of one chapter on its own, as part of a series.
pub fn plan_chapter_upload(comic_name: String, files: &Vec<UploadFile>, pre_transcode: bool) -> (plan:
    UploadPlan)
    ensures
        plan.header.name == comic_name,
        plans(plan.files@, serial_entries(files@.len(), pre_transcode), serial_progress_fn(files@.len())),
        plan.header.layout matches HeaderLayout::Serial { files: names, page_count } && string_views(
            names@,
        ) == keys_of(plan.files@) && page_count == files@.len(),
{
    let planned = plan_serial(files, pre_transcode);
    let names = keys(&planned);
    UploadPlan {
        header: ImportHeader {
            name: comic_name,
            layout: HeaderLayout::Serial { files: names, page_count: files.len() },
        },
        files: planned,
    }
}

/// Whether some chapter has pages.
pub open spec fn any_chapter_pages(chs: Seq<ChapterItem>) -> bool {
    exists|k: int| 0 <= k < chs.len() && #[trigger] chs[k].files@.len() > 0
}

/// Checks before starting an upload: the error to show, if any.
pub fn upload_precheck(state: &UiState) -> (err: Option<String>)
    ensures
        state.upload_mode is Single ==> if state.upload_items@.len() == 0 {
            err matches Some(m) && m@ == "请先选择漫画文件。"@
        } else {
            err is None
        },
        state.upload_mode is Multi ==> if state.upload_chapters@.len() == 0 {
            err matches Some(m) && m@ == "请先添加章节。"@
        } else if !any_chapter_pages(state.upload_chapters@) {
            err matches Some(m) && m@ == "所有章节都没有图片，请先添加图片。"@
        } else {
            err is None
        },
{
    proof {
        reveal_strlit("请先选择漫画文件。");
        reveal_strlit("请先添加章节。");
        reveal_strlit("所有章节都没有图片，请先添加图片。");
    }
    match state.upload_mode {
        UploadMode::Single => {
            if state.upload_items.len() == 0 {
                Some(String::from_str("请先选择漫画文件。"))
            } else {
                None
            }
        },
        UploadMode::Multi => {
            if state.upload_chapters.len() == 0 {
                return Some(String::from_str("请先添加章节。"));
            }
            let mut i: usize = 0;
            while i < state.upload_chapters.len()
                invariant
                    state.upload_mode is Multi,
                    state.upload_chapters@.len() > 0,
                    i <= state.upload_chapters@.len(),
                    forall|k: int| 0 <= k < i ==> #[trigger] state.upload_chapters@[k].files@.len() == 0,
                decreases state.upload_chapters.len() - i,
            {
                if state.upload_chapters[i].files.len() > 0 {
                    assert(state.upload_chapters@[i as int].files@.len() > 0);
                    return None;
                }
                i = i + 1;
            }
            Some(String::from_str("所有章节都没有图片，请先添加图片。"))
        },
    }
}

/// What a chapter's upload button finds.
pub enum ChapterTarget {
    /// No such chapter: nothing happens.
    Missing,
    /// The chapter has no pages: this error is shown.
    Empty(String),
    /// Upload under this comic name.
    Ready { comic_name: String },
}

/// The comic name of a chapter uploaded on its own: the book's name (the
/// trimmed name field, `本地漫画` when blank), ` - `, and the chapter's title.
pub open spec fn chapter_comic_name(input: Seq<char>, ci: nat, chapter_name: Seq<char>) -> Seq<char> {
    (if trim(input).len() == 0 {
        "本地漫画"@
    } else {
        trim(input)
    }) + " - "@ + chapter_title(ci, chapter_name)
}

/// What uploading chapter `chapter_index` on its own would send.
pub fn chapter_upload_target(state: &UiState, chapter_index: usize) -> (t: ChapterTarget)
    ensures
        chapter_index >= state.upload_chapters@.len() ==> t is Missing,
        chapter_index < state.upload_chapters@.len() ==> {
            let ch = state.upload_chapters@[chapter_index as int];
            &&& ch.files@.len() == 0 ==> (t matches ChapterTarget::Empty(m) && m@ == "该章节没有图片。"@)
            &&& ch.files@.len() > 0 ==> (t matches ChapterTarget::Ready { comic_name } && comic_name@
                == chapter_comic_name(state.upload_comic_name_input@, chapter_index as nat, ch.name@))
        },
{
    if chapter_index >= state.upload_chapters.len() {
        return ChapterTarget::Missing;
    }
    let ch = &state.upload_chapters[chapter_index];
    if ch.files.len() == 0 {
        proof {
            reveal_strlit("该章节没有图片。");
        }
        return ChapterTarget::Empty(String::from_str("该章节没有图片。"));
    }
    proof {
        reveal_strlit("本地漫画");
        reveal_strlit(" - ");
    }
    let main = if is_blank(state.upload_comic_name_input.as_str()) {
        String::from_str("本地漫画")
    } else {
        trim_str(state.upload_comic_name_input.as_str())
    };
    assert(chapter_index < usize::MAX);
    let title = title_of(chapter_index, &ch.name);
    ChapterTarget::Ready { comic_name: main.concat(" - ").concat(title.as_str()) }
}

/// Width of the master copy kept of a picked image.
pub const MASTER_WIDTH: u32 = 1280;

/// Width of the list preview of a picked image.
pub const THUMBNAIL_WIDTH: u32 = 100;

/// How an image is encoded for the watch.
#[derive(Debug, Clone, Copy, PartialEq, Eq, Structural)]
pub enum SendFormat {
    /// LVGL indexed-8 binary.
    Lvgl,
    Png,
    /// JPEG at this quality.
    Jpeg(u8),
}

/// `x` limited to `lo..=hi`.
pub open spec fn clamped(x: u32, lo: u32, hi: u32) -> u32 {
    if x < lo {
        lo
    } else if x > hi {
        hi
    } else {
        x
    }
}

/// How to prepare an image for the watch under its settings: the width to
/// scale down to (the image size, kept within 100..=4096), and the format:
/// pages go as LVGL binaries when the watch app takes pre-transcoded pages;
/// otherwise PNG or JPEG as it asks (quality kept within 1..=100).
pub fn send_encoding(settings: &WatchSettings, is_page: bool) -> (r: (u32, SendFormat))
    ensures
        r.0 == clamped(settings.image_size, 100, 4096),
        r.1 == if is_page && settings.image_pre_transcode {
            SendFormat::Lvgl
        } else if settings.image_use_png {
            SendFormat::Png
        } else {
            SendFormat::Jpeg(clamped(settings.image_quality, 1, 100) as u8)
        },
{
    let target = if settings.image_size < 100 {
        100
    } else if settings.image_size > 4096 {
        4096
    } else {
        settings.image_size
    };
    let format = if is_page && settings.image_pre_transcode {
        SendFormat::Lvgl
    } else if settings.image_use_png {
        SendFormat::Png
    } else {
        let q: u32 = if settings.image_quality < 1 {
            1
        } else if settings.image_quality > 100 {
            100
        } else {
            settings.image_quality
        };
        SendFormat::Jpeg(q as u8)
    };
    (target, format)
}

/// The files of an upload ready to send: each planned file's key with its
/// prepared image, base64-encoded and cut into transport chunks.
pub fn encode_files(files: &Vec<PlannedFile>, prepared: &Vec<Vec<u8>>) -> (out: Vec<(String, Vec<String>)>)
    requires
        prepared@.len() == files@.len(),
    ensures
        out@.len() == files@.len(),
        forall|k: int|
            0 <= k < out@.len() ==> {
                &&& (#[trigger] out@[k]).0@ == files@[k].key@
                &&& string_views(out@[k].1@) == chunks(b64_encode(prepared@[k]@), CHUNK_SIZE as nat)
            },
{
    let mut out: Vec<(String, Vec<String>)> = Vec::new();
    let mut k: usize = 0;
    while k < files.len()
        invariant
            prepared@.len() == files@.len(),
            k <= files@.len(),
            out@.len() == k,
            forall|j: int|
                0 <= j < k ==> {
                    &&& (#[trigger] out@[j]).0@ == files@[j].key@
                    &&& string_views(out@[j].1@) == chunks(b64_encode(prepared@[j]@), CHUNK_SIZE as nat)
                },
        decreases files.len() - k,
    {
        let text = base64_encode(prepared[k].as_slice());
        let parts = chunk_text(&text, CHUNK_SIZE);
        assert(string_views(parts@) =~= chunks(b64_encode(prepared@[k as int]@), CHUNK_SIZE as nat));
        let ghost before = out@;
        out.push((files[k].key.clone(), parts));
        assert forall|j: int| 0 <= j < k + 1 implies {
            &&& (#[trigger] out@[j]).0@ == files@[j].key@
            &&& string_views(out@[j].1@) == chunks(b64_encode(prepared@[j]@), CHUNK_SIZE as nat)
        } by {
            if j < k {
                assert(out@[j] == before[j]);
            }
        }
        k = k + 1;
    }
    out
}

} // verus!

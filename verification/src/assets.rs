//! Fetching the ending pictures and data on first start: which source to
//! try next, what to fetch from a directory listing, and how a source's
//! download is judged.

use vstd::prelude::*;
use crate::text::{owned, str_eq, concat2, push_str_chars};

verus! {

/// A repository that holds the pictures and the data file.
pub enum AssetSource {
    Github,
    Gitee,
}

/// The API URL of the contents of `source`.
pub open spec fn api_url(source: AssetSource) -> Seq<char> {
    match source {
        AssetSource::Github => "https://api.github.com/repos/SeeWhyRan/doroending_pic_assets/contents"@,
        AssetSource::Gitee => "https://gitee.com/api/v5/repos/seewhy_ran/doroending_pic_assets/contents"@,
    }
}

/// The URL under which the raw files of `source` are served.
pub open spec fn raw_url(source: AssetSource) -> Seq<char> {
    match source {
        AssetSource::Github => "https://raw.githubusercontent.com/SeeWhyRan/doroending_pic_assets/main"@,
        AssetSource::Gitee => "https://gitee.com/seewhy_ran/doroending_pic_assets/raw/main"@,
    }
}

/// The name by which `source` is reported.
pub open spec fn source_label(source: AssetSource) -> Seq<char> {
    match source {
        AssetSource::Github => "github"@,
        AssetSource::Gitee => "gitee"@,
    }
}

impl AssetSource {
    /// The API URL of the repository contents.
    pub fn api(&self) -> (r: String)
        ensures
            r@ == api_url(*self),
    {
        match self {
            AssetSource::Github => owned(
                "https://api.github.com/repos/SeeWhyRan/doroending_pic_assets/contents",
            ),
            AssetSource::Gitee => owned(
                "https://gitee.com/api/v5/repos/seewhy_ran/doroending_pic_assets/contents",
            ),
        }
    }

    /// The URL of the raw files.
    pub fn raw(&self) -> (r: String)
        ensures
            r@ == raw_url(*self),
    {
        match self {
            AssetSource::Github => owned(
                "https://raw.githubusercontent.com/SeeWhyRan/doroending_pic_assets/main",
            ),
            AssetSource::Gitee => owned("https://gitee.com/seewhy_ran/doroending_pic_assets/raw/main"),
        }
    }

    /// The name by which the source is reported.
    pub fn label(&self) -> (r: String)
        ensures
            r@ == source_label(*self),
    {
        match self {
            AssetSource::Github => owned("github"),
            AssetSource::Gitee => owned("gitee"),
        }
    }
}

// ── trying the sources in turn ───────────────────────────────────

/// How fetching the assets ended: whether it succeeded, a message, the
/// source tried last, and the text of the data file that source yielded
/// (`None` when it had none, or when fetching failed).
pub struct AssetReport {
    pub success: bool,
    pub message: String,
    pub source: AssetSource,
    pub json_data: Option<String>,
}

/// The models of an optional text.
pub open spec fn opt_view(t: Option<String>) -> Option<Seq<char>> {
    match t {
        Some(s) => Some(s@),
        None => None,
    }
}

/// What to do next: try a source, or stop with a report.
pub enum AssetStep {
    Try(AssetSource),
    Done(AssetReport),
}

/// GitHub is tried first.
pub fn first_asset_step() -> (r: AssetStep)
    ensures
        r matches AssetStep::Try(AssetSource::Github),
{
    AssetStep::Try(AssetSource::Github)
}

/// What follows trying `tried` with the outcome `outcome` (what the source
/// yielded: the text of its data file, if any, or why it failed): success
/// ends it, with a report that holds exactly what the source yielded; a
/// failure of GitHub falls back to Gitee; a failure of Gitee ends it with the
/// reason of that failure. So at most two sources are tried, Gitee only
/// after GitHub failed.
pub fn next_asset_step(tried: AssetSource, outcome: Result<Option<String>, String>) -> (r: AssetStep)
    ensures
        outcome matches Ok(data) ==> (r matches AssetStep::Done(rep) && rep.success && rep.message@
            == "下载完成"@ && rep.source == tried && opt_view(rep.json_data) == opt_view(data)),
        (outcome is Err && tried is Github) ==> (r matches AssetStep::Try(AssetSource::Gitee)),
        tried is Gitee ==> r is Done,
        outcome matches Err(e) ==> (tried is Gitee ==> (r matches AssetStep::Done(rep)
            && !rep.success && rep.message@ == "下载失败: "@ + e@ && rep.source is Gitee
            && rep.json_data is None)),
{
    match outcome {
        Ok(data) => AssetStep::Done(
            AssetReport { success: true, message: owned("下载完成"), source: tried, json_data: data },
        ),
        Err(e) => match tried {
            AssetSource::Github => AssetStep::Try(AssetSource::Gitee),
            AssetSource::Gitee => AssetStep::Done(
                AssetReport {
                    success: false,
                    message: concat2("下载失败: ", e.as_str()),
                    source: AssetSource::Gitee,
                    json_data: None,
                },
            ),
        },
    }
}

// ── reading a directory listing ──────────────────────────────────

/// One item of a repository listing: its `name` and `type` when they are
/// strings, and whether it has a `download_url` field.
pub struct ListingEntry {
    pub name: Option<String>,
    pub kind: Option<String>,
    pub has_download_url: bool,
}

/// The model of a listing item: its name, its type and whether it has a
/// download URL.
pub type ItemModel = (Option<Seq<char>>, Option<Seq<char>>, bool);

/// The model of the item `e`.
pub open spec fn entry_view(e: ListingEntry) -> ItemModel {
    (opt_view(e.name), opt_view(e.kind), e.has_download_url)
}

/// The models of the items `v`.
pub open spec fn listing_view(v: Seq<ListingEntry>) -> Seq<ItemModel> {
    v.map_values(|e: ListingEntry| entry_view(e))
}

/// Whether the item `e` has name `name`.
pub open spec fn entry_named(e: ListingEntry, name: Seq<char>) -> bool {
    e.name matches Some(n) && n@ == name
}

/// Whether the item `e` is of type `kind`.
pub open spec fn entry_kind(e: ListingEntry, kind: Seq<char>) -> bool {
    e.kind matches Some(k) && k@ == kind
}

/// What the JSON text `text` reads as when taken as an array of listing
/// items (`name` and `type` where they are strings, and whether a
/// `download_url` field is there), or the parser's description of why it
/// does not.
pub uninterp spec fn json_listing(text: Seq<char>) -> Result<Seq<ItemModel>, Seq<char>>;

/// Reads the JSON text `text` as a repository listing with serde_json
/// (`serde_json::from_str` into an array of values). The contract says that
/// the outcome is `json_listing` of the text, the items taken one for one,
/// and the error text being serde_json's `Display` of its error.
#[verifier::external_body]
fn parse_listing(text: &str) -> (r: Result<Vec<ListingEntry>, String>)
    ensures
        match r {
            Ok(v) => json_listing(text@) == Ok::<Seq<ItemModel>, Seq<char>>(listing_view(v@)),
            Err(e) => json_listing(text@) == Err::<Seq<ItemModel>, Seq<char>>(e@),
        },
{
    match serde_json::from_str::<Vec<serde_json::Value>>(text) {
        Ok(items) => Ok(items.iter().map(|i| ListingEntry {
            name: i.get("name").and_then(|x| x.as_str()).map(String::from),
            kind: i.get("type").and_then(|x| x.as_str()).map(String::from),
            has_download_url: i.get("download_url").is_some(),
        }).collect()),
        Err(e) => Err(e.to_string()),
    }
}

/// The items of the repository listing `text`, or why it is no listing:
/// exactly what `json_listing` gives.
pub fn read_listing(text: &str) -> (r: Result<Vec<ListingEntry>, String>)
    ensures
        match json_listing(text@) {
            Ok(items) => r matches Ok(v) && listing_view(v@) == items,
            Err(e) => r matches Err(x) && x@ == e,
        },
{
    parse_listing(text)
}

/// What the top of a repository holds.
pub struct RootScan {
    /// The picture directory `DoroEndingPic`.
    pub has_pic: bool,
    /// The data file `doroendings.json`.
    pub has_json: bool,
}

/// Looks for the picture directory and the data file among the items at
/// the top of a repository.
pub fn scan_root_listing(items: &[ListingEntry]) -> (r: RootScan)
    ensures
        r.has_pic == exists|i: int|
            0 <= i < items@.len() && entry_named(#[trigger] items@[i], "DoroEndingPic"@)
                && entry_kind(items@[i], "dir"@),
        r.has_json == exists|i: int|
            0 <= i < items@.len() && entry_named(#[trigger] items@[i], "doroendings.json"@),
{
    let mut has_pic = false;
    let mut has_json = false;
    let n = items.len();
    let mut i: usize = 0;
    while i < n
        invariant
            i <= n,
            n == items@.len(),
            has_pic == exists|k: int|
                0 <= k < i && entry_named(#[trigger] items@[k], "DoroEndingPic"@) && entry_kind(
                    items@[k],
                    "dir"@,
                ),
            has_json == exists|k: int|
                0 <= k < i && entry_named(#[trigger] items@[k], "doroendings.json"@),
        decreases n - i,
    {
        let item = &items[i];
        let is_pic_name = match &item.name {
            Some(n) => str_eq(n.as_str(), "DoroEndingPic"),
            None => false,
        };
        let is_dir = match &item.kind {
            Some(k) => str_eq(k.as_str(), "dir"),
            None => false,
        };
        let is_json = match &item.name {
            Some(n) => str_eq(n.as_str(), "doroendings.json"),
            None => false,
        };
        if is_pic_name && is_dir {
            has_pic = true;
        }
        if is_json {
            has_json = true;
        }
        i = i + 1;
    }
    RootScan { has_pic, has_json }
}

/// What the top of a repository holds, read from its listing `text`: the
/// picture directory is an item named `DoroEndingPic` of type `dir`, the
/// data file an item named `doroendings.json`; a text that is no listing
/// gives the parser's error.
pub fn scan_root_text(text: &str) -> (r: Result<RootScan, String>)
    ensures
        match json_listing(text@) {
            Ok(items) => r matches Ok(sc) && (sc.has_pic == exists|i: int|
                0 <= i < items.len() && (#[trigger] items[i]).0 == Some("DoroEndingPic"@)
                    && items[i].1 == Some("dir"@)) && (sc.has_json == exists|i: int|
                0 <= i < items.len() && (#[trigger] items[i]).0 == Some("doroendings.json"@)),
            Err(e) => r matches Err(x) && x@ == e,
        },
{
    match parse_listing(text) {
        Ok(v) => {
            let sc = scan_root_listing(v.as_slice());
            proof {
                let items = listing_view(v@);
                assert(items.len() == v@.len());
                assert forall|i: int| 0 <= i < v@.len() implies #[trigger] items[i] == entry_view(
                    v@[i],
                ) by {}
                let pic_at = |i: int| items[i].0 == Some("DoroEndingPic"@) && items[i].1 == Some("dir"@);
                if sc.has_pic {
                    let i = choose|i: int|
                        0 <= i < v@.len() && entry_named(#[trigger] v@[i], "DoroEndingPic"@)
                            && entry_kind(v@[i], "dir"@);
                    assert(items[i] == entry_view(v@[i]));
                    assert(pic_at(i));
                }
                if exists|i: int| 0 <= i < items.len() && (#[trigger] items[i]).0 == Some("DoroEndingPic"@)
                    && items[i].1 == Some("dir"@) {
                    let i = choose|i: int| 0 <= i < items.len() && (#[trigger] items[i]).0 == Some(
                        "DoroEndingPic"@,
                    ) && items[i].1 == Some("dir"@);
                    assert(items[i] == entry_view(v@[i]));
                    assert(entry_named(v@[i], "DoroEndingPic"@) && entry_kind(v@[i], "dir"@));
                }
                if sc.has_json {
                    let i = choose|i: int|
                        0 <= i < v@.len() && entry_named(#[trigger] v@[i], "doroendings.json"@);
                    assert(items[i] == entry_view(v@[i]));
                }
                if exists|i: int| 0 <= i < items.len() && (#[trigger] items[i]).0 == Some("doroendings.json"@) {
                    let i = choose|i: int| 0 <= i < items.len() && (#[trigger] items[i]).0 == Some(
                        "doroendings.json"@,
                    );
                    assert(items[i] == entry_view(v@[i]));
                    assert(entry_named(v@[i], "doroendings.json"@));
                }
            }
            Ok(sc)
        },
        Err(e) => Err(e),
    }
}

/// The URL listing the directory `api_path` of `source`.
pub fn listing_url(source: &AssetSource, api_path: &str) -> (r: String)
    ensures
        r@ == api_url(*source) + seq!['/'] + api_path@,
{
    let mut r = source.api();
    r.push('/');
    push_str_chars(&mut r, api_path);
    r
}

/// The URL of the raw data file of `source`.
pub fn data_file_url(source: &AssetSource) -> (r: String)
    ensures
        r@ == raw_url(*source) + "/doroendings.json"@,
{
    let mut r = source.raw();
    push_str_chars(&mut r, "/doroendings.json");
    r
}

/// What to do with one item of a directory listing.
pub enum EntryPlan {
    /// Fetch the file at `url` and store it under `name`.
    File { url: String, name: String },
    /// Descend into the sub-directory `name`, listed at `api_path`.
    Dir { api_path: String, name: String },
    /// Neither a file nor a directory.
    Skip,
}

/// The item's name, or the empty text when it has none.
pub open spec fn entry_name(e: ListingEntry) -> Seq<char> {
    match e.name {
        Some(n) => n@,
        None => Seq::empty(),
    }
}

/// What to do with the item `item` of the directory `api_path` of the
/// repository whose raw files are under `raw`: an item of type `file`, or
/// one with a download URL, is fetched from `raw/api_path/name`; one of type
/// `dir` is descended into; anything else is skipped. A missing name or
/// type counts as empty.
pub fn plan_listing_entry(raw: &str, api_path: &str, item: &ListingEntry) -> (r: EntryPlan)
    ensures
        (entry_kind(*item, "file"@) || item.has_download_url) ==> (r matches EntryPlan::File {
            url,
            name,
        } && url@ == raw@ + seq!['/'] + api_path@ + seq!['/'] + entry_name(*item) && name@
            == entry_name(*item)),
        !(entry_kind(*item, "file"@) || item.has_download_url) && entry_kind(*item, "dir"@) ==> (
        r matches EntryPlan::Dir { api_path: sub, name } && sub@ == api_path@ + seq!['/']
            + entry_name(*item) && name@ == entry_name(*item)),
        !(entry_kind(*item, "file"@) || item.has_download_url) && !entry_kind(*item, "dir"@)
            ==> r is Skip,
{
    let name = match &item.name {
        Some(n) => owned(n.as_str()),
        None => String::new(),
    };
    let is_file = match &item.kind {
        Some(k) => str_eq(k.as_str(), "file"),
        None => false,
    };
    let is_dir = match &item.kind {
        Some(k) => str_eq(k.as_str(), "dir"),
        None => false,
    };
    if is_file || item.has_download_url {
        let mut url = owned(raw);
        url.push('/');
        push_str_chars(&mut url, api_path);
        url.push('/');
        push_str_chars(&mut url, name.as_str());
        EntryPlan::File { url, name }
    } else if is_dir {
        let mut sub = owned(api_path);
        sub.push('/');
        push_str_chars(&mut sub, name.as_str());
        EntryPlan::Dir { api_path: sub, name }
    } else {
        EntryPlan::Skip
    }
}

/// Whether a file already on disk is kept rather than fetched again: it is
/// when it exists and is larger than 100 bytes.
pub fn keep_existing_file(exists: bool, size: u64) -> (r: bool)
    ensures
        r == (exists && size > 100),
{
    exists && size > 100
}

/// serde_json's description of why the text `text` is no JSON document,
/// or `None` when it is one.
pub uninterp spec fn json_syntax_error(text: Seq<char>) -> Option<Seq<char>>;

/// Checks the text `text` with serde_json (`serde_json::from_str` into a
/// value). The contract says that the outcome is `json_syntax_error` of the
/// text: `None` when it parses, else the `Display` of the parser's error.
#[verifier::external_body]
fn json_error(text: &str) -> (r: Option<String>)
    ensures
        opt_view(r) == json_syntax_error(text@),
{
    serde_json::from_str::<serde_json::Value>(text).err().map(|e| e.to_string())
}

/// The fetched data file `content`, given what checking it as JSON found
/// (`syntax_error`): the content when it is JSON, else the error.
pub fn accept_data_file(content: String, syntax_error: Option<String>) -> (r: Result<String, String>)
    ensures
        match syntax_error {
            None => r matches Ok(c) && c@ == content@,
            Some(e) => r matches Err(x) && x@ == e@,
        },
{
    match syntax_error {
        None => Ok(content),
        Some(e) => Err(e),
    }
}

/// The fetched data file `content`, checked to be JSON: the content when it
/// is, else the parser's description of why not.
pub fn read_data_file(content: String) -> (r: Result<String, String>)
    ensures
        match json_syntax_error(content@) {
            None => r matches Ok(c) && c@ == content@,
            Some(e) => r matches Err(x) && x@ == e,
        },
{
    let err = json_error(content.as_str());
    accept_data_file(content, err)
}

/// What a source yields after its download: the data file, when the source
/// listed it, and the picture directory, when it listed that, must now
/// exist; then it yields the text of the data file it fetched when it listed
/// one (`json_data`, `None` when fetching it gave nothing), and nothing when
/// it listed none.
pub fn check_source_download(
    has_json: bool,
    json_data: Option<String>,
    json_exists: bool,
    has_pic: bool,
    pic_exists: bool,
) -> (r: Result<Option<String>, String>)
    ensures
        (has_json && !json_exists) ==> (r matches Err(e) && e@ == "JSON 文件下载失败"@),
        !(has_json && !json_exists) && (has_pic && !pic_exists) ==> (r matches Err(e) && e@
            == "图片目录下载失败"@),
        !(has_json && !json_exists) && !(has_pic && !pic_exists) ==> (r matches Ok(data)
            && opt_view(data) == if has_json {
            opt_view(json_data)
        } else {
            None
        }),
{
    if has_json && !json_exists {
        return Err(owned("JSON 文件下载失败"));
    }
    if has_pic && !pic_exists {
        return Err(owned("图片目录下载失败"));
    }
    if has_json {
        Ok(json_data)
    } else {
        Ok(None)
    }
}


/// Law: both sources serve the same repository layout: the API lists the
/// repository's contents, and the raw files are served from its `main`
/// branch; GitHub under `SeeWhyRan/doroending_pic_assets`, Gitee under
/// `seewhy_ran/doroending_pic_assets`. So the data file of a source is at
/// its raw URL followed by `/doroendings.json`.
pub proof fn lemma_source_urls()
    ensures
        api_url(AssetSource::Github) == "https://api.github.com/repos/"@
            + "SeeWhyRan/doroending_pic_assets"@ + "/contents"@,
        raw_url(AssetSource::Github) == "https://raw.githubusercontent.com/"@
            + "SeeWhyRan/doroending_pic_assets"@ + "/main"@,
        api_url(AssetSource::Gitee) == "https://gitee.com/api/v5/repos/"@
            + "seewhy_ran/doroending_pic_assets"@ + "/contents"@,
        raw_url(AssetSource::Gitee) == "https://gitee.com/"@ + "seewhy_ran/doroending_pic_assets"@
            + "/raw/main"@,
        source_label(AssetSource::Github) == "github"@,
        source_label(AssetSource::Gitee) == "gitee"@,
{
    reveal_strlit("https://api.github.com/repos/SeeWhyRan/doroending_pic_assets/contents");
    reveal_strlit("https://raw.githubusercontent.com/SeeWhyRan/doroending_pic_assets/main");
    reveal_strlit("https://gitee.com/api/v5/repos/seewhy_ran/doroending_pic_assets/contents");
    reveal_strlit("https://gitee.com/seewhy_ran/doroending_pic_assets/raw/main");
    reveal_strlit("https://api.github.com/repos/");
    reveal_strlit("https://raw.githubusercontent.com/");
    reveal_strlit("https://gitee.com/api/v5/repos/");
    reveal_strlit("https://gitee.com/");
    reveal_strlit("SeeWhyRan/doroending_pic_assets");
    reveal_strlit("seewhy_ran/doroending_pic_assets");
    reveal_strlit("/contents");
    reveal_strlit("/main");
    reveal_strlit("/raw/main");
    assert(api_url(AssetSource::Github) =~= "https://api.github.com/repos/"@
        + "SeeWhyRan/doroending_pic_assets"@ + "/contents"@);
    assert(raw_url(AssetSource::Github) =~= "https://raw.githubusercontent.com/"@
        + "SeeWhyRan/doroending_pic_assets"@ + "/main"@);
    assert(api_url(AssetSource::Gitee) =~= "https://gitee.com/api/v5/repos/"@
        + "seewhy_ran/doroending_pic_assets"@ + "/contents"@);
    assert(raw_url(AssetSource::Gitee) =~= "https://gitee.com/"@ + "seewhy_ran/doroending_pic_assets"@
        + "/raw/main"@);
}

} // verus!

//! The catalogue of Doro endings and the manager that keeps it.

use vstd::prelude::*;
use crate::text::{decimal, str_eq, owned, u64_to_decimal, concat2, concat3};
use crate::image::{image_base, image_base_name, image_ext, image_file_name, MAX_IMAGE_BYTES};

verus! {

/// One Doro ending: its id, its Chinese and English names and the file name
/// of its picture (empty when it has none).
pub struct DoroEnding {
    pub id: u64,
    pub name: String,
    pub english_name: String,
    pub pic: String,
}

/// The mathematical value of a [`DoroEnding`].
pub struct EndingModel {
    pub id: u64,
    pub name: Seq<char>,
    pub english_name: Seq<char>,
    pub pic: Seq<char>,
}

impl View for DoroEnding {
    type V = EndingModel;

    open spec fn view(&self) -> EndingModel {
        EndingModel {
            id: self.id,
            name: self.name@,
            english_name: self.english_name@,
            pic: self.pic@,
        }
    }
}

impl Clone for DoroEnding {
    fn clone(&self) -> (r: Self)
        ensures
            r == *self,
    {
        DoroEnding {
            id: self.id,
            name: self.name.clone(),
            english_name: self.english_name.clone(),
            pic: self.pic.clone(),
        }
    }
}

/// The models of a sequence of endings.
pub open spec fn endings_view(v: Seq<DoroEnding>) -> Seq<EndingModel> {
    v.map_values(|e: DoroEnding| e@)
}

/// A copy of every ending of `v`, in order.
pub fn clone_endings(v: &[DoroEnding]) -> (r: Vec<DoroEnding>)
    ensures
        r@ == v@,
{
    let mut r: Vec<DoroEnding> = Vec::new();
    let n = v.len();
    let mut i: usize = 0;
    while i < n
        invariant
            i <= n,
            n == v@.len(),
            r@ == v@.take(i as int),
        decreases n - i,
    {
        r.push(v[i].clone());
        i = i + 1;
        assert(r@ =~= v@.take(i as int));
    }
    assert(v@.take(n as int) =~= v@);
    r
}

/// What the data file holds: the endings, the largest id handed out so far
/// and the number of endings.
pub struct DoroData {
    pub datas: Vec<DoroEnding>,
    pub max_id: u64,
    pub total: usize,
}

/// Why an operation on the catalogue was refused.
pub enum DoroError {
    /// Another ending already has this English name.
    EnglishNameExists(String),
    /// No ending has this id.
    NotFound(u64),
    /// The field to change is neither `name` nor `english_name`.
    UnknownField,
    /// The picture could not be fetched or stored; the text says why.
    ImageSaveFailed(String),
    /// The data file could not be written; the text says why.
    Storage(String),
}

/// The text that refuses an English name already in use.
pub open spec fn name_taken_message(en: Seq<char>) -> Seq<char> {
    "英文名 '"@ + en + "' 已存在"@
}

/// The text that reports that no ending has id `id`.
pub open spec fn not_found_message(id: u64) -> Seq<char> {
    "未找到 ID 为 "@ + decimal(id as nat) + " 的结局"@
}

/// The text that reports `e`.
pub open spec fn error_message(e: DoroError) -> Seq<char> {
    match e {
        DoroError::EnglishNameExists(n) => name_taken_message(n@),
        DoroError::NotFound(id) => not_found_message(id),
        DoroError::UnknownField => "未知字段"@,
        DoroError::ImageSaveFailed(d) => "图片保存失败: "@ + d@,
        DoroError::Storage(d) => d@,
    }
}

impl DoroError {
    /// The text that reports this error.
    pub fn message(&self) -> (r: String)
        ensures
            r@ == error_message(*self),
    {
        match self {
            DoroError::EnglishNameExists(n) => concat3("英文名 '", n.as_str(), "' 已存在"),
            DoroError::NotFound(id) => {
                let d = u64_to_decimal(*id);
                concat3("未找到 ID 为 ", d.as_str(), " 的结局")
            },
            DoroError::UnknownField => owned("未知字段"),
            DoroError::ImageSaveFailed(d) => concat2("图片保存失败: ", d.as_str()),
            DoroError::Storage(d) => owned(d.as_str()),
        }
    }
}

// ── searching ────────────────────────────────────────────────────

/// The first index of `s` whose element satisfies `p`, if any.
pub open spec fn first_match(s: Seq<EndingModel>, p: spec_fn(EndingModel) -> bool) -> Option<int> {
    if exists|i: int| 0 <= i < s.len() && p(#[trigger] s[i]) {
        Some(
            choose|i: int|
                0 <= i < s.len() && p(s[i]) && forall|j: int| 0 <= j < i ==> !p(#[trigger] s[j]),
        )
    } else {
        None
    }
}

/// `i` is the first index of `s` whose element satisfies `p`: then it is
/// what [`first_match`] picks.
pub proof fn lemma_first_match(s: Seq<EndingModel>, p: spec_fn(EndingModel) -> bool, i: int)
    requires
        0 <= i < s.len(),
        p(s[i]),
        forall|j: int| 0 <= j < i ==> !p(#[trigger] s[j]),
    ensures
        first_match(s, p) == Some(i),
{
    assert(exists|k: int| 0 <= k < s.len() && p(#[trigger] s[k]));
    let c = choose|k: int|
        0 <= k < s.len() && p(s[k]) && forall|j: int| 0 <= j < k ==> !p(#[trigger] s[j]);
    if c < i {
        assert(!p(s[c]));
    }
    if c > i {
        assert(!p(s[i]));
    }
}

/// No element of `s` satisfies `p`: then [`first_match`] finds nothing.
pub proof fn lemma_no_match(s: Seq<EndingModel>, p: spec_fn(EndingModel) -> bool)
    requires
        forall|j: int| 0 <= j < s.len() ==> !p(#[trigger] s[j]),
    ensures
        first_match(s, p) is None,
{
}

/// `first_match` gives an index in range whose element satisfies `p`.
pub proof fn lemma_first_match_found(s: Seq<EndingModel>, p: spec_fn(EndingModel) -> bool)
    requires
        first_match(s, p) is Some,
    ensures
        0 <= first_match(s, p)->0 < s.len(),
        p(s[first_match(s, p)->0]),
        forall|j: int| 0 <= j < first_match(s, p)->0 ==> !p(#[trigger] s[j]),
{
    // There is a matching index; the least one exists by induction on the bound.
    let w = choose|i: int| 0 <= i < s.len() && p(#[trigger] s[i]);
    lemma_least_match(s, p, w);
}

proof fn lemma_least_match(s: Seq<EndingModel>, p: spec_fn(EndingModel) -> bool, w: int)
    requires
        0 <= w < s.len(),
        p(s[w]),
    ensures
        exists|i: int|
            0 <= i < s.len() && p(s[i]) && forall|j: int| 0 <= j < i ==> !p(#[trigger] s[j]),
    decreases w,
{
    if exists|j: int| 0 <= j < w && p(#[trigger] s[j]) {
        let v = choose|j: int| 0 <= j < w && p(#[trigger] s[j]);
        lemma_least_match(s, p, v);
    } else {
        assert(forall|j: int| 0 <= j < w ==> !p(#[trigger] s[j]));
    }
}

/// Selects the endings with id `id`.
pub open spec fn id_is(id: u64) -> spec_fn(EndingModel) -> bool {
    |e: EndingModel| e.id == id
}

/// Selects the endings with Chinese name `name`.
pub open spec fn name_is(name: Seq<char>) -> spec_fn(EndingModel) -> bool {
    |e: EndingModel| e.name == name
}

/// Selects the endings that a removal request names: by the decimal
/// notation of the id or by the Chinese name.
pub open spec fn named_by(target: Seq<char>) -> spec_fn(EndingModel) -> bool {
    |e: EndingModel| decimal(e.id as nat) == target || e.name == target
}

/// Whether some ending of `s` has English name `en`.
pub open spec fn has_english_name(s: Seq<EndingModel>, en: Seq<char>) -> bool {
    exists|i: int| 0 <= i < s.len() && (#[trigger] s[i]).english_name == en
}

/// Whether some ending of `s` has id `id`.
pub open spec fn has_id(s: Seq<EndingModel>, id: u64) -> bool {
    exists|i: int| 0 <= i < s.len() && (#[trigger] s[i]).id == id
}

/// Whether an ending other than the one with id `id` has English name `en`.
pub open spec fn english_name_taken_by_other(s: Seq<EndingModel>, id: u64, en: Seq<char>) -> bool {
    exists|i: int| 0 <= i < s.len() && (#[trigger] s[i]).id != id && s[i].english_name == en
}

/// The largest id in `s`, or 0 when `s` is empty.
pub open spec fn max_id_of(s: Seq<EndingModel>) -> u64
    decreases s.len(),
{
    if s.len() == 0 {
        0
    } else {
        let m = max_id_of(s.drop_last());
        if s.last().id > m {
            s.last().id
        } else {
            m
        }
    }
}

pub proof fn lemma_max_id_of_bounds(s: Seq<EndingModel>)
    ensures
        forall|i: int| 0 <= i < s.len() ==> (#[trigger] s[i]).id <= max_id_of(s),
        s.len() == 0 ==> max_id_of(s) == 0,
        s.len() > 0 ==> exists|i: int| 0 <= i < s.len() && (#[trigger] s[i]).id == max_id_of(s),
    decreases s.len(),
{
    if s.len() > 0 {
        lemma_max_id_of_bounds(s.drop_last());
        assert forall|i: int| 0 <= i < s.len() implies (#[trigger] s[i]).id <= max_id_of(s) by {
            if i < s.len() - 1 {
                assert(s[i] == s.drop_last()[i]);
            }
        }
        if s.last().id <= max_id_of(s.drop_last()) && s.len() > 1 {
            let k = choose|k: int|
                0 <= k < s.drop_last().len() && (#[trigger] s.drop_last()[k]).id == max_id_of(
                    s.drop_last(),
                );
            assert(s[k] == s.drop_last()[k]);
        }
        if s.len() == 1 {
            assert(s.drop_last().len() == 0);
        }
    }
}

proof fn lemma_view_remove(v: Seq<DoroEnding>, i: int)
    requires
        0 <= i < v.len(),
    ensures
        endings_view(v.remove(i)) == endings_view(v).remove(i),
        v[i]@ == endings_view(v)[i],
{
    assert(endings_view(v.remove(i)) =~= endings_view(v).remove(i));
}

// ── the manager ──────────────────────────────────────────────────

/// The mathematical value of a [`DoroEndingManager`].
pub struct ManagerModel {
    pub data_file: Seq<char>,
    pub pic_dir: Seq<char>,
    pub endings: Seq<EndingModel>,
    pub max_id: u64,
}

/// The catalogue after installing the stored endings and largest id `data`
/// (`None`: nothing could be read, and nothing changes).
pub open spec fn after_load(m: ManagerModel, data: Option<(Seq<EndingModel>, u64)>) -> ManagerModel {
    match data {
        Some((endings, max_id)) => ManagerModel { endings, max_id, ..m },
        None => m,
    }
}

/// The ending that adding (`name`, `en`, `pic`) to `m` creates.
pub open spec fn new_ending(m: ManagerModel, name: Seq<char>, en: Seq<char>, pic: Seq<char>) -> EndingModel {
    EndingModel { id: (m.max_id + 1) as u64, name: name, english_name: en, pic: pic }
}

/// The file name of the picture, with bytes `data`, of the ending that
/// adding one with English name `en` to `m` creates: the new id in eight or
/// more zero-padded digits, `'_'`, the safe stem of `en`, and the extension
/// that the bytes call for.
pub open spec fn new_picture_name(m: ManagerModel, en: Seq<char>, data: Seq<u8>) -> Seq<char> {
    image_base((m.max_id + 1) as u64, en) + image_ext(data)
}

/// The text that refuses a picture larger than 10 MiB.
pub open spec fn too_large_message() -> Seq<char> {
    "图片过大 (超过10MB)"@
}

/// The catalogue after adding (`name`, `en`, `pic`) to `m`: unchanged when
/// the English name is in use, else the new ending is appended and its id
/// becomes the largest one handed out.
pub open spec fn after_add(m: ManagerModel, name: Seq<char>, en: Seq<char>, pic: Seq<char>) -> ManagerModel {
    if has_english_name(m.endings, en) {
        m
    } else {
        let e = new_ending(m, name, en, pic);
        ManagerModel { endings: m.endings.push(e), max_id: e.id, ..m }
    }
}

/// The catalogue after removing what `target` names from `m`.
pub open spec fn after_remove(m: ManagerModel, target: Seq<char>) -> ManagerModel {
    match first_match(m.endings, named_by(target)) {
        None => m,
        Some(i) => {
            let rest = m.endings.remove(i);
            ManagerModel {
                endings: rest,
                max_id: if m.endings[i].id == m.max_id {
                    max_id_of(rest)
                } else {
                    m.max_id
                },
                ..m
            }
        },
    }
}

/// Whether changing `field` of the ending with id `id` to `value` goes through.
pub open spec fn update_applies(m: ManagerModel, id: u64, field: Seq<char>, value: Seq<char>) -> bool {
    &&& has_id(m.endings, id)
    &&& (field == "name"@ || (field == "english_name"@ && !english_name_taken_by_other(
        m.endings,
        id,
        value,
    )))
}

/// The first ending with id `id` after its `field` became `value`.
pub open spec fn updated_ending(m: ManagerModel, id: u64, field: Seq<char>, value: Seq<char>) -> EndingModel {
    let old_e = m.endings[first_match(m.endings, id_is(id))->0];
    if field == "name"@ {
        EndingModel { name: value, ..old_e }
    } else {
        EndingModel { english_name: value, ..old_e }
    }
}

/// The catalogue after changing `field` of the ending with id `id` to `value`.
pub open spec fn after_update(m: ManagerModel, id: u64, field: Seq<char>, value: Seq<char>) -> ManagerModel {
    if update_applies(m, id, field, value) {
        ManagerModel {
            endings: m.endings.update(
                first_match(m.endings, id_is(id))->0,
                updated_ending(m, id, field, value),
            ),
            ..m
        }
    } else {
        m
    }
}

/// Keeps the endings, in the order they were added, and the largest id
/// handed out so far, from which the next id is made.
pub struct DoroEndingManager {
    data_file: String,
    pic_dir: String,
    endings: Vec<DoroEnding>,
    max_id: u64,
}

impl View for DoroEndingManager {
    type V = ManagerModel;

    closed spec fn view(&self) -> ManagerModel {
        ManagerModel {
            data_file: self.data_file@,
            pic_dir: self.pic_dir@,
            endings: endings_view(self.endings@),
            max_id: self.max_id,
        }
    }
}


impl DoroEndingManager {
    /// An empty catalogue kept in `data_file`, with pictures under `pic_dir`.
    pub fn new(data_file: &str, pic_dir: &str) -> (m: Self)
        ensures
            m@ == (ManagerModel {
                data_file: data_file@,
                pic_dir: pic_dir@,
                endings: Seq::empty(),
                max_id: 0,
            }),
    {
        let m = DoroEndingManager {
            data_file: owned(data_file),
            pic_dir: owned(pic_dir),
            endings: Vec::new(),
            max_id: 0,
        };
        assert(endings_view(m.endings@) =~= Seq::<EndingModel>::empty());
        m
    }

    /// The path of the data file.
    pub fn data_file(&self) -> (r: &str)
        ensures
            r@ == self@.data_file,
    {
        self.data_file.as_str()
    }

    /// The largest id handed out so far.
    pub fn max_id(&self) -> (r: u64)
        ensures
            r == self@.max_id,
    {
        self.max_id
    }

    /// The directory that holds the pictures.
    pub fn pic_dir(&self) -> (r: &str)
        ensures
            r@ == self@.pic_dir,
    {
        self.pic_dir.as_str()
    }

    /// Installs what was read from the data file; `None` stands for a file
    /// that could not be read or parsed, which leaves the catalogue as it is.
    /// Returns whether data was installed.
    pub fn load(&mut self, data: Option<DoroData>) -> (loaded: bool)
        ensures
            loaded == data is Some,
            final(self)@ == after_load(
                old(self)@,
                match data {
                    Some(d) => Some((endings_view(d.datas@), d.max_id)),
                    None => None,
                },
            ),
    {
        match data {
            Some(d) => {
                self.max_id = d.max_id;
                self.endings = d.datas;
                true
            },
            None => false,
        }
    }

    /// What the data file is to hold: the endings, the largest id and the
    /// number of endings.
    pub fn snapshot(&self) -> (d: DoroData)
        ensures
            endings_view(d.datas@) == self@.endings,
            d.max_id == self@.max_id,
            d.total == self@.endings.len(),
    {
        DoroData {
            datas: clone_endings(self.endings.as_slice()),
            max_id: self.max_id,
            total: self.endings.len(),
        }
    }

    /// All endings, in order.
    pub fn get_all(&self) -> (r: &[DoroEnding])
        ensures
            endings_view(r@) == self@.endings,
    {
        self.endings.as_slice()
    }

    /// The number of endings.
    pub fn count(&self) -> (n: usize)
        ensures
            n == self@.endings.len(),
    {
        self.endings.len()
    }

    /// The first ending with id `id`.
    pub fn get_by_id(&self, id: u64) -> (r: Option<&DoroEnding>)
        ensures
            match first_match(self@.endings, id_is(id)) {
                Some(i) => r is Some && r->0@ == self@.endings[i],
                None => r is None,
            },
    {
        match self.index_of_id(id) {
            Some(i) => {
                let e = &self.endings[i];
                assert(e@ == self@.endings[i as int]);
                Some(e)
            },
            None => None,
        }
    }

    fn index_of_id(&self, id: u64) -> (r: Option<usize>)
        ensures
            match first_match(self@.endings, id_is(id)) {
                Some(i) => r is Some && r->0 as int == i,
                None => r is None,
            },
            r is Some ==> r->0 < self@.endings.len(),
    {
        let ghost s = self@.endings;
        let n = self.endings.len();
        let mut i: usize = 0;
        while i < n
            invariant
                i <= n,
                n == s.len(),
                s == endings_view(self.endings@),
                forall|j: int| 0 <= j < i ==> !id_is(id)(#[trigger] s[j]),
            decreases n - i,
        {
            if self.endings[i].id == id {
                proof {
                    lemma_first_match(s, id_is(id), i as int);
                }
                return Some(i);
            }
            i = i + 1;
        }
        proof {
            lemma_no_match(s, id_is(id));
        }
        None
    }

    /// The first ending with Chinese name `name`.
    pub fn get_by_name(&self, name: &str) -> (r: Option<&DoroEnding>)
        ensures
            match first_match(self@.endings, name_is(name@)) {
                Some(i) => r is Some && r->0@ == self@.endings[i],
                None => r is None,
            },
    {
        let ghost s = self@.endings;
        let n = self.endings.len();
        let mut i: usize = 0;
        while i < n
            invariant
                i <= n,
                n == s.len(),
                s == endings_view(self.endings@),
                forall|j: int| 0 <= j < i ==> !name_is(name@)(#[trigger] s[j]),
            decreases n - i,
        {
            if str_eq(self.endings[i].name.as_str(), name) {
                proof {
                    lemma_first_match(s, name_is(name@), i as int);
                }
                return Some(&self.endings[i]);
            }
            i = i + 1;
        }
        proof {
            lemma_no_match(s, name_is(name@));
        }
        None
    }

    /// Whether some ending already has the English name `english_name`.
    pub fn english_name_in_use(&self, english_name: &str) -> (r: bool)
        ensures
            r == has_english_name(self@.endings, english_name@),
    {
        let ghost s = self@.endings;
        let n = self.endings.len();
        let mut i: usize = 0;
        while i < n
            invariant
                i <= n,
                n == s.len(),
                s == endings_view(self.endings@),
                forall|j: int| 0 <= j < i ==> (#[trigger] s[j]).english_name != english_name@,
            decreases n - i,
        {
            if str_eq(self.endings[i].english_name.as_str(), english_name) {
                assert(s[i as int].english_name == english_name@);
                return true;
            }
            i = i + 1;
        }
        false
    }

    /// The id that adding an ending with English name `english_name` would
    /// give it, or the refusal when that English name is already in use.
    pub fn next_id(&self, english_name: &str) -> (r: Result<u64, DoroError>)
        requires
            has_english_name(self@.endings, english_name@) || self@.max_id < u64::MAX,
        ensures
            has_english_name(self@.endings, english_name@) ==> (r matches Err(
                DoroError::EnglishNameExists(n),
            ) && n@ == english_name@),
            !has_english_name(self@.endings, english_name@) ==> r == Ok::<u64, DoroError>(
                (self@.max_id + 1) as u64,
            ),
    {
        if self.english_name_in_use(english_name) {
            Err(DoroError::EnglishNameExists(owned(english_name)))
        } else {
            Ok(self.max_id + 1)
        }
    }

    /// Adds an ending whose picture, if any, is already stored as `pic`
    /// (empty for none). The new ending gets the id after the largest one
    /// handed out so far. Refused when the English name is already in use.
    pub fn add(&mut self, name: &str, english_name: &str, pic: &str) -> (r: Result<
        DoroEnding,
        DoroError,
    >)
        requires
            has_english_name(old(self)@.endings, english_name@) || old(self)@.max_id < u64::MAX,
        ensures
            final(self)@ == after_add(old(self)@, name@, english_name@, pic@),
            has_english_name(old(self)@.endings, english_name@) ==> (r matches Err(
                DoroError::EnglishNameExists(n),
            ) && n@ == english_name@),
            !has_english_name(old(self)@.endings, english_name@) ==> (r matches Ok(added)
                && added@ == new_ending(old(self)@, name@, english_name@, pic@)),
    {
        if self.english_name_in_use(english_name) {
            return Err(DoroError::EnglishNameExists(owned(english_name)));
        }
        let new_id = self.max_id + 1;
        let ending = DoroEnding {
            id: new_id,
            name: owned(name),
            english_name: owned(english_name),
            pic: owned(pic),
        };
        let ghost before = self.endings@;
        self.endings.push(ending.clone());
        self.max_id = new_id;
        assert(endings_view(self.endings@) =~= endings_view(before).push(ending@));
        Ok(ending)
    }

    /// The file name under which the picture with bytes `data` of a new
    /// ending with English name `english_name` is stored; refused, as a
    /// failed picture, when it is larger than 10 MiB.
    pub fn picture_file_name(&self, english_name: &str, data: &[u8]) -> (r: Result<String, DoroError>)
        requires
            self@.max_id < u64::MAX,
        ensures
            data@.len() > MAX_IMAGE_BYTES ==> (r matches Err(DoroError::ImageSaveFailed(d)) && d@
                == too_large_message()),
            data@.len() <= MAX_IMAGE_BYTES ==> (r matches Ok(f) && f@ == new_picture_name(
                self@,
                english_name@,
                data@,
            )),
    {
        let base = image_base_name(self.max_id + 1, english_name);
        match image_file_name(base.as_str(), data) {
            Ok(f) => Ok(f),
            Err(e) => Err(DoroError::ImageSaveFailed(e.message())),
        }
    }

    /// Adds an ending together with its picture. `picture` is `None` when
    /// no picture was given; else the picture's bytes, once stored under
    /// [`Self::picture_file_name`], or why fetching or storing it failed.
    /// The English name is checked first; a failed or oversized picture
    /// refuses the ending and changes nothing; otherwise the new ending's
    /// picture is the name that its id, its English name and the picture's
    /// bytes make.
    pub fn add_with_picture(
        &mut self,
        name: &str,
        english_name: &str,
        picture: Option<Result<Vec<u8>, String>>,
    ) -> (r: Result<DoroEnding, DoroError>)
        requires
            has_english_name(old(self)@.endings, english_name@) || old(self)@.max_id < u64::MAX,
        ensures
            has_english_name(old(self)@.endings, english_name@) ==> {
                &&& r matches Err(DoroError::EnglishNameExists(n)) && n@ == english_name@
                &&& final(self)@ == old(self)@
            },
            !has_english_name(old(self)@.endings, english_name@) ==> match picture {
                None => {
                    &&& r matches Ok(e) && e@ == new_ending(old(self)@, name@, english_name@, Seq::empty())
                    &&& final(self)@ == after_add(old(self)@, name@, english_name@, Seq::empty())
                },
                Some(Err(why)) => {
                    &&& r matches Err(DoroError::ImageSaveFailed(d)) && d@ == why@
                    &&& final(self)@ == old(self)@
                },
                Some(Ok(data)) => if data@.len() > MAX_IMAGE_BYTES {
                    &&& r matches Err(DoroError::ImageSaveFailed(d)) && d@ == too_large_message()
                    &&& final(self)@ == old(self)@
                } else {
                    let pic = new_picture_name(old(self)@, english_name@, data@);
                    &&& r matches Ok(e) && e@ == new_ending(old(self)@, name@, english_name@, pic)
                    &&& final(self)@ == after_add(old(self)@, name@, english_name@, pic)
                },
            },
    {
        if self.english_name_in_use(english_name) {
            return Err(DoroError::EnglishNameExists(owned(english_name)));
        }
        let pic = match picture {
            None => String::new(),
            Some(Err(why)) => {
                return Err(DoroError::ImageSaveFailed(why));
            },
            Some(Ok(data)) => match self.picture_file_name(english_name, data.as_slice()) {
                Ok(f) => f,
                Err(e) => {
                    return Err(e);
                },
            },
        };
        self.add(name, english_name, pic.as_str())
    }

    fn index_named_by(&self, target: &str) -> (r: Option<usize>)
        ensures
            match first_match(self@.endings, named_by(target@)) {
                Some(i) => r is Some && r->0 as int == i,
                None => r is None,
            },
            r is Some ==> r->0 < self@.endings.len(),
    {
        let ghost s = self@.endings;
        let n = self.endings.len();
        let mut i: usize = 0;
        while i < n
            invariant
                i <= n,
                n == s.len(),
                s == endings_view(self.endings@),
                forall|j: int| 0 <= j < i ==> !named_by(target@)(#[trigger] s[j]),
            decreases n - i,
        {
            let id_text = u64_to_decimal(self.endings[i].id);
            if str_eq(id_text.as_str(), target) || str_eq(self.endings[i].name.as_str(), target) {
                proof {
                    lemma_first_match(s, named_by(target@), i as int);
                }
                return Some(i);
            }
            i = i + 1;
        }
        proof {
            lemma_no_match(s, named_by(target@));
        }
        None
    }

    fn largest_id(&self) -> (m: u64)
        ensures
            m == max_id_of(self@.endings),
    {
        let ghost s = self@.endings;
        let n = self.endings.len();
        let mut m: u64 = 0;
        let mut i: usize = 0;
        while i < n
            invariant
                i <= n,
                n == s.len(),
                s == endings_view(self.endings@),
                m == max_id_of(s.take(i as int)),
            decreases n - i,
        {
            assert(s.take(i + 1).drop_last() =~= s.take(i as int));
            if self.endings[i].id > m {
                m = self.endings[i].id;
            }
            i = i + 1;
        }
        assert(s.take(n as int) =~= s);
        m
    }

    /// Removes the first ending whose id, written in decimal, or whose
    /// Chinese name equals `target`, and returns it (`None`, and nothing
    /// changes, when no ending matches). When the removed ending had the
    /// largest id handed out, that becomes the largest id left (0 when none).
    pub fn remove(&mut self, target: &str) -> (r: Option<DoroEnding>)
        ensures
            final(self)@ == after_remove(old(self)@, target@),
            match first_match(old(self)@.endings, named_by(target@)) {
                None => r is None,
                Some(i) => r matches Some(e) && e@ == old(self)@.endings[i],
            },
    {
        match self.index_named_by(target) {
            None => None,
            Some(i) => {
                let ghost before = self.endings@;
                let ending = self.endings.remove(i);
                proof {
                    lemma_view_remove(before, i as int);
                }
                if ending.id == self.max_id {
                    self.max_id = self.largest_id();
                }
                Some(ending)
            },
        }
    }

    fn english_name_used_by_other(&self, id: u64, english_name: &str) -> (r: bool)
        ensures
            r == english_name_taken_by_other(self@.endings, id, english_name@),
    {
        let ghost s = self@.endings;
        let n = self.endings.len();
        let mut i: usize = 0;
        while i < n
            invariant
                i <= n,
                n == s.len(),
                s == endings_view(self.endings@),
                forall|j: int|
                    0 <= j < i ==> !((#[trigger] s[j]).id != id && s[j].english_name
                        == english_name@),
            decreases n - i,
        {
            if self.endings[i].id != id && str_eq(
                self.endings[i].english_name.as_str(),
                english_name,
            ) {
                assert(s[i as int].id != id && s[i as int].english_name == english_name@);
                return true;
            }
            i = i + 1;
        }
        false
    }

    /// Changes the Chinese name (`field` is `"name"`) or the English name
    /// (`field` is `"english_name"`) of the first ending with id `id` to
    /// `value` and returns the changed ending. Refused, with nothing changed,
    /// when no ending has that id, when a new English name is already used by
    /// an ending with another id, or when the field is neither of the two.
    pub fn update(&mut self, id: u64, field: &str, value: &str) -> (r: Result<
        DoroEnding,
        DoroError,
    >)
        ensures
            final(self)@ == after_update(old(self)@, id, field@, value@),
            !has_id(old(self)@.endings, id) ==> r == Err::<DoroEnding, DoroError>(
                DoroError::NotFound(id),
            ),
            has_id(old(self)@.endings, id) && field@ == "english_name"@
                && english_name_taken_by_other(old(self)@.endings, id, value@) ==> (r matches Err(
                DoroError::EnglishNameExists(n),
            ) && n@ == value@),
            has_id(old(self)@.endings, id) && field@ != "name"@ && field@ != "english_name"@ ==> (
            r matches Err(DoroError::UnknownField)),
            update_applies(old(self)@, id, field@, value@) ==> (r matches Ok(changed)
                && changed@ == updated_ending(old(self)@, id, field@, value@)),
    {
        let idx = self.index_of_id(id);
        let i = match idx {
            None => {
                proof {
                    if has_id(self@.endings, id) {
                        let k = choose|k: int|
                            0 <= k < self@.endings.len() && (#[trigger] self@.endings[k]).id == id;
                        assert(id_is(id)(self@.endings[k]));
                    }
                }
                return Err(DoroError::NotFound(id));
            },
            Some(i) => i,
        };
        proof {
            lemma_first_match_found(self@.endings, id_is(id));
            assert(self@.endings[i as int].id == id);
        }
        proof {
            reveal_strlit("name");
            reveal_strlit("english_name");
            assert("name"@.len() == 4);
            assert("english_name"@.len() == 12);
        }
        let is_english = str_eq(field, "english_name");
        if is_english && self.english_name_used_by_other(id, value) {
            return Err(DoroError::EnglishNameExists(owned(value)));
        }
        let is_name = str_eq(field, "name");
        if !is_name && !is_english {
            return Err(DoroError::UnknownField);
        }
        let mut changed = self.endings[i].clone();
        if is_name {
            changed.name = owned(value);
        } else {
            changed.english_name = owned(value);
        }
        let ghost before = self.endings@;
        self.endings.set(i, changed.clone());
        assert(endings_view(self.endings@) =~= endings_view(before).update(i as int, changed@));
        Ok(changed)
    }
}


// ── laws of the catalogue ────────────────────────────────────────

/// No two endings of `s` share an English name.
pub open spec fn english_names_unique(s: Seq<EndingModel>) -> bool {
    forall|i: int, j: int|
        0 <= i < s.len() && 0 <= j < s.len() && i != j ==> (#[trigger] s[i]).english_name
            != (#[trigger] s[j]).english_name
}

/// No two endings of `s` share an id.
pub open spec fn ids_unique(s: Seq<EndingModel>) -> bool {
    forall|i: int, j: int|
        0 <= i < s.len() && 0 <= j < s.len() && i != j ==> (#[trigger] s[i]).id != (
        #[trigger] s[j]).id
}

/// Every id in the catalogue is at most the largest id handed out.
pub open spec fn ids_within_max(m: ManagerModel) -> bool {
    forall|i: int| 0 <= i < m.endings.len() ==> (#[trigger] m.endings[i]).id <= m.max_id
}

proof fn lemma_remove_index(s: Seq<EndingModel>, i: int, k: int)
    requires
        0 <= i < s.len(),
        0 <= k < s.len() - 1,
    ensures
        s.remove(i)[k] == if k < i { s[k] } else { s[k + 1] },
{
}

/// Law: adding, removing and updating never make two endings share an
/// English name (for an update, provided ids are unique, since an update
/// only checks the endings with other ids).
pub proof fn lemma_english_names_stay_unique(
    m: ManagerModel,
    name: Seq<char>,
    en: Seq<char>,
    pic: Seq<char>,
    target: Seq<char>,
    id: u64,
    field: Seq<char>,
    value: Seq<char>,
)
    requires
        english_names_unique(m.endings),
    ensures
        english_names_unique(after_add(m, name, en, pic).endings),
        english_names_unique(after_remove(m, target).endings),
        ids_unique(m.endings) ==> english_names_unique(after_update(m, id, field, value).endings),
{
    let a = after_add(m, name, en, pic).endings;
    assert forall|i: int, j: int|
        0 <= i < a.len() && 0 <= j < a.len() && i != j implies (#[trigger] a[i]).english_name
        != (#[trigger] a[j]).english_name by {
        if !has_english_name(m.endings, en) {
            if i == m.endings.len() as int {
                assert(m.endings[j].english_name != en);
            } else if j == m.endings.len() as int {
                assert(m.endings[i].english_name != en);
            }
        }
    }
    let r = after_remove(m, target).endings;
    match first_match(m.endings, named_by(target)) {
        None => {},
        Some(x) => {
            lemma_first_match_found(m.endings, named_by(target));
            assert forall|i: int, j: int|
                0 <= i < r.len() && 0 <= j < r.len() && i != j implies (#[trigger] r[i]).english_name
                != (#[trigger] r[j]).english_name by {
                lemma_remove_index(m.endings, x, i);
                lemma_remove_index(m.endings, x, j);
                let ii = if i < x { i } else { i + 1 };
                let jj = if j < x { j } else { j + 1 };
                assert(m.endings[ii].english_name != m.endings[jj].english_name);
            }
        },
    }
    if ids_unique(m.endings) && update_applies(m, id, field, value) {
        lemma_first_match_found(m.endings, id_is(id));
        let x = first_match(m.endings, id_is(id))->0;
        let u = after_update(m, id, field, value).endings;
        assert forall|i: int, j: int|
            0 <= i < u.len() && 0 <= j < u.len() && i != j implies (#[trigger] u[i]).english_name
            != (#[trigger] u[j]).english_name by {
            if field == "english_name"@ && field != "name"@ {
                if i == x {
                    assert(m.endings[j].id != id);
                    assert(!(m.endings[j].id != id && m.endings[j].english_name == value));
                } else if j == x {
                    assert(m.endings[i].id != id);
                    assert(!(m.endings[i].id != id && m.endings[i].english_name == value));
                } else {
                    assert(m.endings[i].english_name != m.endings[j].english_name);
                }
            } else {
                assert(m.endings[i].english_name != m.endings[j].english_name);
            }
        }
    }
}

/// Law: no id in the catalogue ever exceeds the largest id handed out; a new
/// catalogue has no ids, and adding, removing and updating keep it so.
pub proof fn lemma_ids_stay_within_max(
    m: ManagerModel,
    name: Seq<char>,
    en: Seq<char>,
    pic: Seq<char>,
    target: Seq<char>,
    id: u64,
    field: Seq<char>,
    value: Seq<char>,
)
    requires
        ids_within_max(m),
        has_english_name(m.endings, en) || m.max_id < u64::MAX,
    ensures
        ids_within_max(after_add(m, name, en, pic)),
        ids_within_max(after_remove(m, target)),
        ids_within_max(after_update(m, id, field, value)),
{
    let a = after_add(m, name, en, pic);
    assert forall|i: int| 0 <= i < a.endings.len() implies (#[trigger] a.endings[i]).id
        <= a.max_id by {
        if !has_english_name(m.endings, en) && i < m.endings.len() {
            assert(a.endings[i] == m.endings[i]);
        }
    }
    let r = after_remove(m, target);
    match first_match(m.endings, named_by(target)) {
        None => {},
        Some(x) => {
            lemma_first_match_found(m.endings, named_by(target));
            lemma_max_id_of_bounds(m.endings.remove(x));
            assert forall|i: int| 0 <= i < r.endings.len() implies (#[trigger] r.endings[i]).id
                <= r.max_id by {
                lemma_remove_index(m.endings, x, i);
            }
        },
    }
    let u = after_update(m, id, field, value);
    if update_applies(m, id, field, value) {
        lemma_first_match_found(m.endings, id_is(id));
        let x = first_match(m.endings, id_is(id))->0;
        assert forall|i: int| 0 <= i < u.endings.len() implies (#[trigger] u.endings[i]).id
            <= u.max_id by {
            if i != x {
                assert(u.endings[i] == m.endings[i]);
            }
        }
    }
}

/// Law: an added ending gets an id no other ending has, so looking that id
/// up afterwards finds the added ending (provided every id is within the
/// largest one handed out, which every operation keeps).
pub proof fn lemma_added_ending_is_found_by_id(
    m: ManagerModel,
    name: Seq<char>,
    en: Seq<char>,
    pic: Seq<char>,
)
    requires
        ids_within_max(m),
        !has_english_name(m.endings, en),
        m.max_id < u64::MAX,
    ensures
        first_match(after_add(m, name, en, pic).endings, id_is(new_ending(m, name, en, pic).id))
            == Some(m.endings.len() as int),
        after_add(m, name, en, pic).endings[m.endings.len() as int] == new_ending(
            m,
            name,
            en,
            pic,
        ),
{
    let a = after_add(m, name, en, pic).endings;
    let e = new_ending(m, name, en, pic);
    assert forall|j: int| 0 <= j < m.endings.len() as int implies !id_is(e.id)(#[trigger] a[j]) by {
        assert(a[j] == m.endings[j]);
    }
    lemma_first_match(a, id_is(e.id), m.endings.len() as int);
}

/// Law: adding, removing and updating never make two endings share an id,
/// provided every id is within the largest one handed out.
pub proof fn lemma_ids_stay_unique(
    m: ManagerModel,
    name: Seq<char>,
    en: Seq<char>,
    pic: Seq<char>,
    target: Seq<char>,
    id: u64,
    field: Seq<char>,
    value: Seq<char>,
)
    requires
        ids_unique(m.endings),
        ids_within_max(m),
        has_english_name(m.endings, en) || m.max_id < u64::MAX,
    ensures
        ids_unique(after_add(m, name, en, pic).endings),
        ids_unique(after_remove(m, target).endings),
        ids_unique(after_update(m, id, field, value).endings),
{
    let a = after_add(m, name, en, pic).endings;
    assert forall|i: int, j: int|
        0 <= i < a.len() && 0 <= j < a.len() && i != j implies (#[trigger] a[i]).id != (
        #[trigger] a[j]).id by {
        if !has_english_name(m.endings, en) {
            if i == m.endings.len() as int {
                assert(m.endings[j].id <= m.max_id);
            } else if j == m.endings.len() as int {
                assert(m.endings[i].id <= m.max_id);
            }
        }
    }
    let r = after_remove(m, target).endings;
    match first_match(m.endings, named_by(target)) {
        None => {},
        Some(x) => {
            lemma_first_match_found(m.endings, named_by(target));
            assert forall|i: int, j: int|
                0 <= i < r.len() && 0 <= j < r.len() && i != j implies (#[trigger] r[i]).id != (
                #[trigger] r[j]).id by {
                lemma_remove_index(m.endings, x, i);
                lemma_remove_index(m.endings, x, j);
                let ii = if i < x { i } else { i + 1 };
                let jj = if j < x { j } else { j + 1 };
                assert(m.endings[ii].id != m.endings[jj].id);
            }
        },
    }
    if update_applies(m, id, field, value) {
        lemma_first_match_found(m.endings, id_is(id));
        let x = first_match(m.endings, id_is(id))->0;
        let u = after_update(m, id, field, value).endings;
        assert forall|i: int, j: int|
            0 <= i < u.len() && 0 <= j < u.len() && i != j implies (#[trigger] u[i]).id != (
            #[trigger] u[j]).id by {
            assert(m.endings[i].id != m.endings[j].id);
        }
    }
}


/// Law: loading what a catalogue's snapshot holds gives back that
/// catalogue's endings, in order, and its largest id, whatever was loaded
/// before; only the file locations stay those of the loading catalogue.
pub proof fn lemma_load_snapshot_roundtrip(
    saved: ManagerModel,
    loading: ManagerModel,
    stored: Seq<EndingModel>,
    stored_max_id: u64,
)
    requires
        stored == saved.endings,
        stored_max_id == saved.max_id,
    ensures
        after_load(loading, Some((stored, stored_max_id))).endings == saved.endings,
        after_load(loading, Some((stored, stored_max_id))).max_id == saved.max_id,
        after_load(loading, Some((stored, stored_max_id))).data_file == loading.data_file,
        after_load(loading, Some((stored, stored_max_id))).pic_dir == loading.pic_dir,
{
}

} // verus!

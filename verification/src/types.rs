//! Data model of the media database: media items, tags, their links,
//! attributes and content hashes.
use vstd::prelude::*;
use vstd::string::StringSliceAdditionalSpecFns;

verus! {

broadcast use vstd::std_specs::vec::group_vec_axioms;

/// Kind of a media item.
#[derive(Debug, Clone, Copy, PartialEq, Eq, Structural)]
pub enum MediaType {
    Comic,
    Video,
    Music,
}

/// Value type of a media attribute.
#[derive(Debug, Clone, Copy, PartialEq, Eq, Structural)]
pub enum AttributeValueType {
    String,
    Integer,
    Boolean,
}

/// Text of a media type.
pub open spec fn media_type_text(t: MediaType) -> Seq<char> {
    match t {
        MediaType::Comic => "comic"@,
        MediaType::Video => "video"@,
        MediaType::Music => "music"@,
    }
}

impl MediaType {
    /// The lower-case name of the media type.
    pub fn as_str(&self) -> (r: &'static str)
        ensures
            r@ == media_type_text(*self),
    {
        match self {
            MediaType::Comic => "comic",
            MediaType::Video => "video",
            MediaType::Music => "music",
        }
    }

    /// The media type whose name is `s` (exact match), if any.
    pub fn from_str(s: &str) -> (r: Option<MediaType>)
        ensures
            r == (if s@ == "comic"@ {
                Some(MediaType::Comic)
            } else if s@ == "video"@ {
                Some(MediaType::Video)
            } else if s@ == "music"@ {
                Some(MediaType::Music)
            } else {
                None::<MediaType>
            }),
    {
        if str_eq(s, "comic") {
            Some(MediaType::Comic)
        } else if str_eq(s, "video") {
            Some(MediaType::Video)
        } else if str_eq(s, "music") {
            Some(MediaType::Music)
        } else {
            None
        }
    }
}

/// Byte-wise equality of two byte slices.
pub fn slice_eq(a: &[u8], b: &[u8]) -> (r: bool)
    ensures
        r == (a@ == b@),
{
    if a.len() != b.len() {
        return false;
    }
    let mut i: usize = 0;
    while i < a.len()
        invariant
            a@.len() == b@.len(),
            i <= a@.len(),
            forall|j: int| 0 <= j < i ==> a@[j] == b@[j],
        decreases a@.len() - i,
    {
        if a[i] != b[i] {
            return false;
        }
        i = i + 1;
    }
    assert(a@ =~= b@);
    true
}

/// Equality of the texts of two strings.
pub fn str_eq(a: &str, b: &str) -> (r: bool)
    ensures
        r == (a@ == b@),
{
    let r = slice_eq(a.as_bytes(), b.as_bytes());
    proof {
        if a.spec_bytes() == b.spec_bytes() {
            vstd::utf8::encode_utf8_decode_utf8(a@);
            vstd::utf8::encode_utf8_decode_utf8(b@);
        }
    }
    r
}

/// Text of an optional string.
pub open spec fn opt_str_view(o: Option<String>) -> Option<Seq<char>> {
    match o {
        Some(s) => Some(s@),
        None => None,
    }
}

/// Bytes of an optional byte vector.
pub open spec fn opt_bytes_view(o: Option<Vec<u8>>) -> Option<Seq<u8>> {
    match o {
        Some(v) => Some(v@),
        None => None,
    }
}

/// Equality of two optional strings by their texts.
pub fn opt_str_eq(a: &Option<String>, b: &Option<String>) -> (r: bool)
    ensures
        r == (opt_str_view(*a) == opt_str_view(*b)),
{
    match (a, b) {
        (Some(x), Some(y)) => str_eq(x.as_str(), y.as_str()),
        (None, None) => true,
        _ => false,
    }
}

/// A copy of an optional string.
pub fn clone_opt_str(a: &Option<String>) -> (r: Option<String>)
    ensures
        opt_str_view(r) == opt_str_view(*a),
{
    match a {
        Some(x) => Some(x.clone()),
        None => None,
    }
}

/// Equality of two byte vectors.
pub fn bytes_eq(a: &Vec<u8>, b: &Vec<u8>) -> (r: bool)
    ensures
        r == (a@ == b@),
{
    slice_eq(a.as_slice(), b.as_slice())
}

/// A copy of a byte vector.
pub fn clone_bytes(a: &Vec<u8>) -> (r: Vec<u8>)
    ensures
        r@ == a@,
{
    let mut r: Vec<u8> = Vec::new();
    let mut i: usize = 0;
    while i < a.len()
        invariant
            i <= a@.len(),
            r@ == a@.subrange(0, i as int),
        decreases a@.len() - i,
    {
        r.push(a[i]);
        i = i + 1;
        assert(r@ =~= a@.subrange(0, i as int));
    }
    assert(a@.subrange(0, a@.len() as int) =~= a@);
    r
}

/// The bytes of a slice, as a vector.
pub fn slice_bytes(a: &[u8]) -> (r: Vec<u8>)
    ensures
        r@ == a@,
{
    let mut r: Vec<u8> = Vec::new();
    let mut i: usize = 0;
    while i < a.len()
        invariant
            i <= a@.len(),
            r@ == a@.subrange(0, i as int),
        decreases a@.len() - i,
    {
        r.push(a[i]);
        i = i + 1;
        assert(r@ =~= a@.subrange(0, i as int));
    }
    assert(a@.subrange(0, a@.len() as int) =~= a@);
    r
}

/// Equality of two optional byte vectors.
pub fn opt_bytes_eq(a: &Option<Vec<u8>>, b: &Option<Vec<u8>>) -> (r: bool)
    ensures
        r == (opt_bytes_view(*a) == opt_bytes_view(*b)),
{
    match (a, b) {
        (Some(x), Some(y)) => bytes_eq(x, y),
        (None, None) => true,
        _ => false,
    }
}

/// A copy of an optional byte vector.
pub fn clone_opt_bytes(a: &Option<Vec<u8>>) -> (r: Option<Vec<u8>>)
    ensures
        opt_bytes_view(r) == opt_bytes_view(*a),
{
    match a {
        Some(x) => Some(clone_bytes(x)),
        None => None,
    }
}

/// Equality of two optional integers.
pub fn opt_i64_eq(a: Option<i64>, b: Option<i64>) -> (r: bool)
    ensures
        r == (a == b),
{
    match (a, b) {
        (Some(x), Some(y)) => x == y,
        (None, None) => true,
        _ => false,
    }
}

/// Equality of two optional integers.
pub fn opt_i32_eq(a: Option<i32>, b: Option<i32>) -> (r: bool)
    ensures
        r == (a == b),
{
    match (a, b) {
        (Some(x), Some(y)) => x == y,
        (None, None) => true,
        _ => false,
    }
}

/// Equality of two optional booleans.
pub fn opt_bool_eq(a: Option<bool>, b: Option<bool>) -> (r: bool)
    ensures
        r == (a == b),
{
    match (a, b) {
        (Some(x), Some(y)) => x == y,
        (None, None) => true,
        _ => false,
    }
}

/// A media item (comic, video or music). Timestamps are milliseconds since the Unix epoch.
pub struct Media {
    pub id: i64,
    pub uuid: String,
    pub title: String,
    pub title_id: Option<String>,
    pub path: Option<String>,
    pub media_type: MediaType,
    pub thumbnail_path: Option<String>,
    pub artist: Option<String>,
    pub artist_id: Option<String>,
    pub description: Option<String>,
    pub file_size: Option<i64>,
    pub duration_sec: Option<i32>,
    pub page_count: Option<i32>,
    pub series: Option<String>,
    pub volume_number: Option<i32>,
    pub volume_text: Option<String>,
    pub volume_title: Option<String>,
    pub magazine: Option<String>,
    pub magazine_id: Option<String>,
    pub language: Option<String>,
    pub source: Option<String>,
    pub external_id: Option<String>,
    pub artist_en: Option<String>,
    pub title_en: Option<String>,
    pub chapters: Option<String>,
    pub extension: Option<String>,
    pub flag_exist: bool,
    pub created_at: i64,
    pub updated_at: i64,
    pub title_pron: Option<String>,
    pub artist_pron: Option<String>,
    pub series_pron: Option<String>,
}

/// Mathematical value of a `Media`.
pub struct MediaView {
    pub id: i64,
    pub uuid: Seq<char>,
    pub title: Seq<char>,
    pub title_id: Option<Seq<char>>,
    pub path: Option<Seq<char>>,
    pub media_type: MediaType,
    pub thumbnail_path: Option<Seq<char>>,
    pub artist: Option<Seq<char>>,
    pub artist_id: Option<Seq<char>>,
    pub description: Option<Seq<char>>,
    pub file_size: Option<i64>,
    pub duration_sec: Option<i32>,
    pub page_count: Option<i32>,
    pub series: Option<Seq<char>>,
    pub volume_number: Option<i32>,
    pub volume_text: Option<Seq<char>>,
    pub volume_title: Option<Seq<char>>,
    pub magazine: Option<Seq<char>>,
    pub magazine_id: Option<Seq<char>>,
    pub language: Option<Seq<char>>,
    pub source: Option<Seq<char>>,
    pub external_id: Option<Seq<char>>,
    pub artist_en: Option<Seq<char>>,
    pub title_en: Option<Seq<char>>,
    pub chapters: Option<Seq<char>>,
    pub extension: Option<Seq<char>>,
    pub flag_exist: bool,
    pub created_at: i64,
    pub updated_at: i64,
    pub title_pron: Option<Seq<char>>,
    pub artist_pron: Option<Seq<char>>,
    pub series_pron: Option<Seq<char>>,
}

impl View for Media {
    type V = MediaView;

    open spec fn view(&self) -> MediaView {
        MediaView {
            id: self.id,
            uuid: self.uuid@,
            title: self.title@,
            title_id: opt_str_view(self.title_id),
            path: opt_str_view(self.path),
            media_type: self.media_type,
            thumbnail_path: opt_str_view(self.thumbnail_path),
            artist: opt_str_view(self.artist),
            artist_id: opt_str_view(self.artist_id),
            description: opt_str_view(self.description),
            file_size: self.file_size,
            duration_sec: self.duration_sec,
            page_count: self.page_count,
            series: opt_str_view(self.series),
            volume_number: self.volume_number,
            volume_text: opt_str_view(self.volume_text),
            volume_title: opt_str_view(self.volume_title),
            magazine: opt_str_view(self.magazine),
            magazine_id: opt_str_view(self.magazine_id),
            language: opt_str_view(self.language),
            source: opt_str_view(self.source),
            external_id: opt_str_view(self.external_id),
            artist_en: opt_str_view(self.artist_en),
            title_en: opt_str_view(self.title_en),
            chapters: opt_str_view(self.chapters),
            extension: opt_str_view(self.extension),
            flag_exist: self.flag_exist,
            created_at: self.created_at,
            updated_at: self.updated_at,
            title_pron: opt_str_view(self.title_pron),
            artist_pron: opt_str_view(self.artist_pron),
            series_pron: opt_str_view(self.series_pron),
        }
    }
}

impl Media {
    /// Field-by-field equality of two values.
    pub fn same_as(&self, other: &Media) -> (r: bool)
        ensures
            r == (self@ == other@),
    {
        self.id == other.id
            && self.uuid == other.uuid
            && self.title == other.title
            && opt_str_eq(&self.title_id, &other.title_id)
            && opt_str_eq(&self.path, &other.path)
            && self.media_type == other.media_type
            && opt_str_eq(&self.thumbnail_path, &other.thumbnail_path)
            && opt_str_eq(&self.artist, &other.artist)
            && opt_str_eq(&self.artist_id, &other.artist_id)
            && opt_str_eq(&self.description, &other.description)
            && opt_i64_eq(self.file_size, other.file_size)
            && opt_i32_eq(self.duration_sec, other.duration_sec)
            && opt_i32_eq(self.page_count, other.page_count)
            && opt_str_eq(&self.series, &other.series)
            && opt_i32_eq(self.volume_number, other.volume_number)
            && opt_str_eq(&self.volume_text, &other.volume_text)
            && opt_str_eq(&self.volume_title, &other.volume_title)
            && opt_str_eq(&self.magazine, &other.magazine)
            && opt_str_eq(&self.magazine_id, &other.magazine_id)
            && opt_str_eq(&self.language, &other.language)
            && opt_str_eq(&self.source, &other.source)
            && opt_str_eq(&self.external_id, &other.external_id)
            && opt_str_eq(&self.artist_en, &other.artist_en)
            && opt_str_eq(&self.title_en, &other.title_en)
            && opt_str_eq(&self.chapters, &other.chapters)
            && opt_str_eq(&self.extension, &other.extension)
            && self.flag_exist == other.flag_exist
            && self.created_at == other.created_at
            && self.updated_at == other.updated_at
            && opt_str_eq(&self.title_pron, &other.title_pron)
            && opt_str_eq(&self.artist_pron, &other.artist_pron)
            && opt_str_eq(&self.series_pron, &other.series_pron)
    }

    /// A copy of the value.
    pub fn duplicate(&self) -> (r: Media)
        ensures
            r@ == self@,
    {
        Media {
            id: self.id,
            uuid: self.uuid.clone(),
            title: self.title.clone(),
            title_id: clone_opt_str(&self.title_id),
            path: clone_opt_str(&self.path),
            media_type: self.media_type,
            thumbnail_path: clone_opt_str(&self.thumbnail_path),
            artist: clone_opt_str(&self.artist),
            artist_id: clone_opt_str(&self.artist_id),
            description: clone_opt_str(&self.description),
            file_size: self.file_size,
            duration_sec: self.duration_sec,
            page_count: self.page_count,
            series: clone_opt_str(&self.series),
            volume_number: self.volume_number,
            volume_text: clone_opt_str(&self.volume_text),
            volume_title: clone_opt_str(&self.volume_title),
            magazine: clone_opt_str(&self.magazine),
            magazine_id: clone_opt_str(&self.magazine_id),
            language: clone_opt_str(&self.language),
            source: clone_opt_str(&self.source),
            external_id: clone_opt_str(&self.external_id),
            artist_en: clone_opt_str(&self.artist_en),
            title_en: clone_opt_str(&self.title_en),
            chapters: clone_opt_str(&self.chapters),
            extension: clone_opt_str(&self.extension),
            flag_exist: self.flag_exist,
            created_at: self.created_at,
            updated_at: self.updated_at,
            title_pron: clone_opt_str(&self.title_pron),
            artist_pron: clone_opt_str(&self.artist_pron),
            series_pron: clone_opt_str(&self.series_pron),
        }
    }
}

/// A tag.
pub struct Tag {
    pub id: i64,
    pub name: String,
}

/// Mathematical value of a `Tag`.
pub struct TagView {
    pub id: i64,
    pub name: Seq<char>,
}

impl View for Tag {
    type V = TagView;

    open spec fn view(&self) -> TagView {
        TagView {
            id: self.id,
            name: self.name@,
        }
    }
}

impl Tag {
    /// Field-by-field equality of two values.
    pub fn same_as(&self, other: &Tag) -> (r: bool)
        ensures
            r == (self@ == other@),
    {
        self.id == other.id
            && self.name == other.name
    }

    /// A copy of the value.
    pub fn duplicate(&self) -> (r: Tag)
        ensures
            r@ == self@,
    {
        Tag {
            id: self.id,
            name: self.name.clone(),
        }
    }
}

/// A link between a media item and a tag.
pub struct MediaTagAssoc {
    pub media_id: i64,
    pub tag_id: i64,
}

/// Mathematical value of a `MediaTagAssoc`.
pub struct MediaTagAssocView {
    pub media_id: i64,
    pub tag_id: i64,
}

impl View for MediaTagAssoc {
    type V = MediaTagAssocView;

    open spec fn view(&self) -> MediaTagAssocView {
        MediaTagAssocView {
            media_id: self.media_id,
            tag_id: self.tag_id,
        }
    }
}

impl MediaTagAssoc {
    /// Field-by-field equality of two values.
    pub fn same_as(&self, other: &MediaTagAssoc) -> (r: bool)
        ensures
            r == (self@ == other@),
    {
        self.media_id == other.media_id
            && self.tag_id == other.tag_id
    }

    /// A copy of the value.
    pub fn duplicate(&self) -> (r: MediaTagAssoc)
        ensures
            r@ == self@,
    {
        MediaTagAssoc {
            media_id: self.media_id,
            tag_id: self.tag_id,
        }
    }
}

/// A key/value attribute of a media item.
pub struct MediaAttribute {
    pub media_id: i64,
    pub key: String,
    pub value: Option<String>,
    pub value_type: AttributeValueType,
}

/// Mathematical value of a `MediaAttribute`.
pub struct MediaAttributeView {
    pub media_id: i64,
    pub key: Seq<char>,
    pub value: Option<Seq<char>>,
    pub value_type: AttributeValueType,
}

impl View for MediaAttribute {
    type V = MediaAttributeView;

    open spec fn view(&self) -> MediaAttributeView {
        MediaAttributeView {
            media_id: self.media_id,
            key: self.key@,
            value: opt_str_view(self.value),
            value_type: self.value_type,
        }
    }
}

impl MediaAttribute {
    /// Field-by-field equality of two values.
    pub fn same_as(&self, other: &MediaAttribute) -> (r: bool)
        ensures
            r == (self@ == other@),
    {
        self.media_id == other.media_id
            && self.key == other.key
            && opt_str_eq(&self.value, &other.value)
            && self.value_type == other.value_type
    }

    /// A copy of the value.
    pub fn duplicate(&self) -> (r: MediaAttribute)
        ensures
            r@ == self@,
    {
        MediaAttribute {
            media_id: self.media_id,
            key: self.key.clone(),
            value: clone_opt_str(&self.value),
            value_type: self.value_type,
        }
    }
}

/// A content hash of (part of) a media item.
pub struct MediaHash {
    pub item_uuid: String,
    pub filename: String,
    pub time_range: String,
    pub content_hash: Vec<u8>,
    pub alternative_of: Option<String>,
    pub embedding: Option<Vec<u8>>,
    pub created_at: String,
    pub updated_at: String,
}

/// Mathematical value of a `MediaHash`.
pub struct MediaHashView {
    pub item_uuid: Seq<char>,
    pub filename: Seq<char>,
    pub time_range: Seq<char>,
    pub content_hash: Seq<u8>,
    pub alternative_of: Option<Seq<char>>,
    pub embedding: Option<Seq<u8>>,
    pub created_at: Seq<char>,
    pub updated_at: Seq<char>,
}

impl View for MediaHash {
    type V = MediaHashView;

    open spec fn view(&self) -> MediaHashView {
        MediaHashView {
            item_uuid: self.item_uuid@,
            filename: self.filename@,
            time_range: self.time_range@,
            content_hash: self.content_hash@,
            alternative_of: opt_str_view(self.alternative_of),
            embedding: opt_bytes_view(self.embedding),
            created_at: self.created_at@,
            updated_at: self.updated_at@,
        }
    }
}

impl MediaHash {
    /// Field-by-field equality of two values.
    pub fn same_as(&self, other: &MediaHash) -> (r: bool)
        ensures
            r == (self@ == other@),
    {
        self.item_uuid == other.item_uuid
            && self.filename == other.filename
            && self.time_range == other.time_range
            && bytes_eq(&self.content_hash, &other.content_hash)
            && opt_str_eq(&self.alternative_of, &other.alternative_of)
            && opt_bytes_eq(&self.embedding, &other.embedding)
            && self.created_at == other.created_at
            && self.updated_at == other.updated_at
    }

    /// A copy of the value.
    pub fn duplicate(&self) -> (r: MediaHash)
        ensures
            r@ == self@,
    {
        MediaHash {
            item_uuid: self.item_uuid.clone(),
            filename: self.filename.clone(),
            time_range: self.time_range.clone(),
            content_hash: clone_bytes(&self.content_hash),
            alternative_of: clone_opt_str(&self.alternative_of),
            embedding: clone_opt_bytes(&self.embedding),
            created_at: self.created_at.clone(),
            updated_at: self.updated_at.clone(),
        }
    }
}

/// Input for creating a media item.
pub struct MediaInput {
    pub title: String,
    pub media_type: MediaType,
    pub uuid: Option<String>,
    pub title_id: Option<String>,
    pub path: Option<String>,
    pub thumbnail_path: Option<String>,
    pub artist: Option<String>,
    pub artist_id: Option<String>,
    pub description: Option<String>,
    pub file_size: Option<i64>,
    pub duration_sec: Option<i32>,
    pub page_count: Option<i32>,
    pub series: Option<String>,
    pub volume_number: Option<i32>,
    pub volume_text: Option<String>,
    pub volume_title: Option<String>,
    pub magazine: Option<String>,
    pub magazine_id: Option<String>,
    pub language: Option<String>,
    pub source: Option<String>,
    pub external_id: Option<String>,
    pub artist_en: Option<String>,
    pub title_en: Option<String>,
    pub chapters: Option<String>,
    pub extension: Option<String>,
    pub flag_exist: Option<bool>,
    pub title_pron: Option<String>,
    pub artist_pron: Option<String>,
    pub series_pron: Option<String>,
}

/// Mathematical value of a `MediaInput`.
pub struct MediaInputView {
    pub title: Seq<char>,
    pub media_type: MediaType,
    pub uuid: Option<Seq<char>>,
    pub title_id: Option<Seq<char>>,
    pub path: Option<Seq<char>>,
    pub thumbnail_path: Option<Seq<char>>,
    pub artist: Option<Seq<char>>,
    pub artist_id: Option<Seq<char>>,
    pub description: Option<Seq<char>>,
    pub file_size: Option<i64>,
    pub duration_sec: Option<i32>,
    pub page_count: Option<i32>,
    pub series: Option<Seq<char>>,
    pub volume_number: Option<i32>,
    pub volume_text: Option<Seq<char>>,
    pub volume_title: Option<Seq<char>>,
    pub magazine: Option<Seq<char>>,
    pub magazine_id: Option<Seq<char>>,
    pub language: Option<Seq<char>>,
    pub source: Option<Seq<char>>,
    pub external_id: Option<Seq<char>>,
    pub artist_en: Option<Seq<char>>,
    pub title_en: Option<Seq<char>>,
    pub chapters: Option<Seq<char>>,
    pub extension: Option<Seq<char>>,
    pub flag_exist: Option<bool>,
    pub title_pron: Option<Seq<char>>,
    pub artist_pron: Option<Seq<char>>,
    pub series_pron: Option<Seq<char>>,
}

impl View for MediaInput {
    type V = MediaInputView;

    open spec fn view(&self) -> MediaInputView {
        MediaInputView {
            title: self.title@,
            media_type: self.media_type,
            uuid: opt_str_view(self.uuid),
            title_id: opt_str_view(self.title_id),
            path: opt_str_view(self.path),
            thumbnail_path: opt_str_view(self.thumbnail_path),
            artist: opt_str_view(self.artist),
            artist_id: opt_str_view(self.artist_id),
            description: opt_str_view(self.description),
            file_size: self.file_size,
            duration_sec: self.duration_sec,
            page_count: self.page_count,
            series: opt_str_view(self.series),
            volume_number: self.volume_number,
            volume_text: opt_str_view(self.volume_text),
            volume_title: opt_str_view(self.volume_title),
            magazine: opt_str_view(self.magazine),
            magazine_id: opt_str_view(self.magazine_id),
            language: opt_str_view(self.language),
            source: opt_str_view(self.source),
            external_id: opt_str_view(self.external_id),
            artist_en: opt_str_view(self.artist_en),
            title_en: opt_str_view(self.title_en),
            chapters: opt_str_view(self.chapters),
            extension: opt_str_view(self.extension),
            flag_exist: self.flag_exist,
            title_pron: opt_str_view(self.title_pron),
            artist_pron: opt_str_view(self.artist_pron),
            series_pron: opt_str_view(self.series_pron),
        }
    }
}

impl Default for MediaInput {
    /// An input with an empty title, type comic, and every optional field absent.
    fn default() -> (r: Self)
        ensures
            r.title@.len() == 0,
            r.media_type == MediaType::Comic,
            r.uuid is None,
            r.title_id is None,
            r.path is None,
            r.thumbnail_path is None,
            r.artist is None,
            r.artist_id is None,
            r.description is None,
            r.file_size is None,
            r.duration_sec is None,
            r.page_count is None,
            r.series is None,
            r.volume_number is None,
            r.volume_text is None,
            r.volume_title is None,
            r.magazine is None,
            r.magazine_id is None,
            r.language is None,
            r.source is None,
            r.external_id is None,
            r.artist_en is None,
            r.title_en is None,
            r.chapters is None,
            r.extension is None,
            r.flag_exist is None,
            r.title_pron is None,
            r.artist_pron is None,
            r.series_pron is None,
    {
        MediaInput {
            title: String::new(),
            media_type: MediaType::Comic,
            uuid: None,
            title_id: None,
            path: None,
            thumbnail_path: None,
            artist: None,
            artist_id: None,
            description: None,
            file_size: None,
            duration_sec: None,
            page_count: None,
            series: None,
            volume_number: None,
            volume_text: None,
            volume_title: None,
            magazine: None,
            magazine_id: None,
            language: None,
            source: None,
            external_id: None,
            artist_en: None,
            title_en: None,
            chapters: None,
            extension: None,
            flag_exist: None,
            title_pron: None,
            artist_pron: None,
            series_pron: None,
        }
    }
}

impl MediaInput {
    /// Field-by-field equality of two values.
    pub fn same_as(&self, other: &MediaInput) -> (r: bool)
        ensures
            r == (self@ == other@),
    {
        self.title == other.title
            && self.media_type == other.media_type
            && opt_str_eq(&self.uuid, &other.uuid)
            && opt_str_eq(&self.title_id, &other.title_id)
            && opt_str_eq(&self.path, &other.path)
            && opt_str_eq(&self.thumbnail_path, &other.thumbnail_path)
            && opt_str_eq(&self.artist, &other.artist)
            && opt_str_eq(&self.artist_id, &other.artist_id)
            && opt_str_eq(&self.description, &other.description)
            && opt_i64_eq(self.file_size, other.file_size)
            && opt_i32_eq(self.duration_sec, other.duration_sec)
            && opt_i32_eq(self.page_count, other.page_count)
            && opt_str_eq(&self.series, &other.series)
            && opt_i32_eq(self.volume_number, other.volume_number)
            && opt_str_eq(&self.volume_text, &other.volume_text)
            && opt_str_eq(&self.volume_title, &other.volume_title)
            && opt_str_eq(&self.magazine, &other.magazine)
            && opt_str_eq(&self.magazine_id, &other.magazine_id)
            && opt_str_eq(&self.language, &other.language)
            && opt_str_eq(&self.source, &other.source)
            && opt_str_eq(&self.external_id, &other.external_id)
            && opt_str_eq(&self.artist_en, &other.artist_en)
            && opt_str_eq(&self.title_en, &other.title_en)
            && opt_str_eq(&self.chapters, &other.chapters)
            && opt_str_eq(&self.extension, &other.extension)
            && opt_bool_eq(self.flag_exist, other.flag_exist)
            && opt_str_eq(&self.title_pron, &other.title_pron)
            && opt_str_eq(&self.artist_pron, &other.artist_pron)
            && opt_str_eq(&self.series_pron, &other.series_pron)
    }

    /// A copy of the value.
    pub fn duplicate(&self) -> (r: MediaInput)
        ensures
            r@ == self@,
    {
        MediaInput {
            title: self.title.clone(),
            media_type: self.media_type,
            uuid: clone_opt_str(&self.uuid),
            title_id: clone_opt_str(&self.title_id),
            path: clone_opt_str(&self.path),
            thumbnail_path: clone_opt_str(&self.thumbnail_path),
            artist: clone_opt_str(&self.artist),
            artist_id: clone_opt_str(&self.artist_id),
            description: clone_opt_str(&self.description),
            file_size: self.file_size,
            duration_sec: self.duration_sec,
            page_count: self.page_count,
            series: clone_opt_str(&self.series),
            volume_number: self.volume_number,
            volume_text: clone_opt_str(&self.volume_text),
            volume_title: clone_opt_str(&self.volume_title),
            magazine: clone_opt_str(&self.magazine),
            magazine_id: clone_opt_str(&self.magazine_id),
            language: clone_opt_str(&self.language),
            source: clone_opt_str(&self.source),
            external_id: clone_opt_str(&self.external_id),
            artist_en: clone_opt_str(&self.artist_en),
            title_en: clone_opt_str(&self.title_en),
            chapters: clone_opt_str(&self.chapters),
            extension: clone_opt_str(&self.extension),
            flag_exist: self.flag_exist,
            title_pron: clone_opt_str(&self.title_pron),
            artist_pron: clone_opt_str(&self.artist_pron),
            series_pron: clone_opt_str(&self.series_pron),
        }
    }
}

/// Input for registering a media hash.
pub struct MediaHashInput {
    pub item_uuid: String,
    pub filename: String,
    pub time_range: String,
    pub content_hash: Vec<u8>,
    pub alternative_of: Option<String>,
}

/// Mathematical value of a `MediaHashInput`.
pub struct MediaHashInputView {
    pub item_uuid: Seq<char>,
    pub filename: Seq<char>,
    pub time_range: Seq<char>,
    pub content_hash: Seq<u8>,
    pub alternative_of: Option<Seq<char>>,
}

impl View for MediaHashInput {
    type V = MediaHashInputView;

    open spec fn view(&self) -> MediaHashInputView {
        MediaHashInputView {
            item_uuid: self.item_uuid@,
            filename: self.filename@,
            time_range: self.time_range@,
            content_hash: self.content_hash@,
            alternative_of: opt_str_view(self.alternative_of),
        }
    }
}

impl MediaHashInput {
    /// Field-by-field equality of two values.
    pub fn same_as(&self, other: &MediaHashInput) -> (r: bool)
        ensures
            r == (self@ == other@),
    {
        self.item_uuid == other.item_uuid
            && self.filename == other.filename
            && self.time_range == other.time_range
            && bytes_eq(&self.content_hash, &other.content_hash)
            && opt_str_eq(&self.alternative_of, &other.alternative_of)
    }

    /// A copy of the value.
    pub fn duplicate(&self) -> (r: MediaHashInput)
        ensures
            r@ == self@,
    {
        MediaHashInput {
            item_uuid: self.item_uuid.clone(),
            filename: self.filename.clone(),
            time_range: self.time_range.clone(),
            content_hash: clone_bytes(&self.content_hash),
            alternative_of: clone_opt_str(&self.alternative_of),
        }
    }
}

} // verus!

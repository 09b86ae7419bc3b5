//! The lettering upload workflow: the content hash that detects duplicate
//! uploads, the storage keys of the original and its thumbnails, and the
//! order of the steps with the error each failure is answered with. The
//! steps themselves (database, image conversion, storage, queue) are
//! performed by the caller, who reports each outcome back.
use vstd::prelude::*;
use vstd::string::*;
use sha2::Digest;
use crate::lettering::{LetteringStatus, ThumbnailUrls};

verus! {

// ---------------------------------------------------------------------
// Content hash
// ---------------------------------------------------------------------

/// The SHA-256 digest of `data`.
pub uninterp spec fn sha256_digest(data: Seq<u8>) -> Seq<u8>;

/// Hashes `data` with sha2's `Sha256` (`Digest::digest`). Believed without
/// proof: the result is the digest of exactly these bytes, and it is 32
/// bytes long, as the hash's output size says.
#[verifier::external_body]
fn sha256(data: &[u8]) -> (r: Vec<u8>)
    ensures
        r@ == sha256_digest(data@),
        r@.len() == 32,
{
    sha2::Sha256::digest(data).to_vec()
}

/// The lowercase hexadecimal digit of a value below 16.
pub open spec fn hex_digit(n: nat) -> char {
    if n < 10 {
        ((n + 48) as u8) as char
    } else {
        ((n + 87) as u8) as char
    }
}

/// Bytes in lowercase hexadecimal, two digits per byte, high half first.
pub open spec fn hex_lower(bytes: Seq<u8>) -> Seq<char>
    decreases bytes.len(),
{
    if bytes.len() == 0 {
        Seq::empty()
    } else {
        hex_lower(bytes.drop_last()).push(hex_digit(bytes.last() as nat / 16)).push(
            hex_digit(bytes.last() as nat % 16),
        )
    }
}

fn hex_digit_exec(n: u8) -> (c: char)
    requires
        n < 16,
    ensures
        c == hex_digit(n as nat),
{
    if n < 10 {
        ((n + 48) as u8) as char
    } else {
        ((n + 87) as u8) as char
    }
}

proof fn lemma_hex_lower_len(bytes: Seq<u8>)
    ensures
        hex_lower(bytes).len() == 2 * bytes.len(),
    decreases bytes.len(),
{
    if bytes.len() > 0 {
        lemma_hex_lower_len(bytes.drop_last());
    }
}

/// The bytes in lowercase hexadecimal.
pub fn to_hex_lower(bytes: &Vec<u8>) -> (r: String)
    ensures
        r@ == hex_lower(bytes@),
        r@.len() == 2 * bytes@.len(),
{
    let mut s = String::new();
    let mut i: usize = 0;
    while i < bytes.len()
        invariant
            i <= bytes.len(),
            s@ == hex_lower(bytes@.subrange(0, i as int)),
        decreases bytes.len() - i,
    {
        let b = bytes[i];
        proof {
            assert(bytes@.subrange(0, i + 1).drop_last() =~= bytes@.subrange(0, i as int));
            assert(bytes@.subrange(0, i + 1).last() == b);
        }
        crate::text::push_char(&mut s, hex_digit_exec(b / 16));
        crate::text::push_char(&mut s, hex_digit_exec(b % 16));
        i = i + 1;
    }
    proof {
        assert(bytes@.subrange(0, bytes@.len() as int) =~= bytes@);
        lemma_hex_lower_len(bytes@);
    }
    s
}

/// The content hash of an image: its SHA-256 digest in lowercase
/// hexadecimal, 64 characters.
pub fn image_hash(image_data: &[u8]) -> (r: String)
    ensures
        r@ == hex_lower(sha256_digest(image_data@)),
        r@.len() == 64,
{
    let digest = sha256(image_data);
    to_hex_lower(&digest)
}

// ---------------------------------------------------------------------
// Storage keys
// ---------------------------------------------------------------------

/// The widest an original is stored.
pub const ORIGINAL_MAX_WIDTH: u32 = 2048;

/// Where the original of a lettering is stored.
pub open spec fn original_key(lettering_id: Seq<char>) -> Seq<char> {
    "letterings/"@ + lettering_id + "/original.webp"@
}

/// Where a thumbnail of a lettering is stored.
pub open spec fn thumbnail_key(lettering_id: Seq<char>, name: Seq<char>) -> Seq<char> {
    "letterings/"@ + lettering_id + "/"@ + name + ".webp"@
}

/// The thumbnails, in the order they are made: their names and widths.
pub open spec fn thumbnail_name(i: nat) -> Seq<char> {
    if i == 0 {
        "small"@
    } else if i == 1 {
        "medium"@
    } else {
        "large"@
    }
}

pub open spec fn thumbnail_width(i: nat) -> u32 {
    if i == 0 {
        200
    } else if i == 1 {
        600
    } else {
        1200
    }
}

/// The storage key of a lettering's original.
pub fn original_image_key(lettering_id: &str) -> (r: String)
    ensures
        r@ == original_key(lettering_id@),
{
    let mut k = String::from_str("letterings/");
    k.append(lettering_id);
    k.append("/original.webp");
    k
}

fn thumbnail_name_exec(i: usize) -> (r: String)
    ensures
        r@ == thumbnail_name(i as nat),
{
    if i == 0 {
        String::from_str("small")
    } else if i == 1 {
        String::from_str("medium")
    } else {
        String::from_str("large")
    }
}

/// The storage key of a lettering's thumbnail.
pub fn thumbnail_image_key(lettering_id: &str, name: &str) -> (r: String)
    ensures
        r@ == thumbnail_key(lettering_id@, name@),
{
    let mut k = String::from_str("letterings/");
    k.append(lettering_id);
    k.append("/");
    k.append(name);
    k.append(".webp");
    k
}

// ---------------------------------------------------------------------
// A new lettering
// ---------------------------------------------------------------------

/// The parts of a freshly uploaded lettering that the upload decides; its
/// id, city, location and timestamps are added by the caller.
pub struct NewLettering {
    pub contributor_tag: String,
    pub image_url: String,
    pub thumbnail_urls: ThumbnailUrls,
    pub pin_code: String,
    pub description: Option<String>,
    pub uploaded_by_ip: Option<String>,
    pub image_hash: Option<String>,
    pub detected_text: Option<String>,
    pub cultural_context: Option<String>,
    pub is_lettering: bool,
    pub status: LetteringStatus,
    pub likes_count: i32,
    pub comments_count: i32,
    pub report_count: i32,
    pub report_reasons: Vec<String>,
}

impl NewLettering {
    /// A lettering as an upload creates it: awaiting moderation, with no
    /// likes, comments or reports, no recognition results yet, and the
    /// image's content hash, URLs and the submitted details.
    pub fn new(
        contributor_tag: String,
        pin_code: String,
        description: Option<String>,
        uploaded_by_ip: Option<String>,
        image_hash: String,
        image_url: String,
        thumbnail_urls: ThumbnailUrls,
    ) -> (r: NewLettering)
        ensures
            r.contributor_tag@ == contributor_tag@,
            r.pin_code@ == pin_code@,
            r.description == description,
            r.uploaded_by_ip == uploaded_by_ip,
            r.image_hash == Some(image_hash),
            r.image_url@ == image_url@,
            r.thumbnail_urls == thumbnail_urls,
            r.detected_text is None,
            r.cultural_context is None,
            r.is_lettering,
            r.status == LetteringStatus::Pending,
            r.likes_count == 0,
            r.comments_count == 0,
            r.report_count == 0,
            r.report_reasons@.len() == 0,
    {
        NewLettering {
            contributor_tag,
            image_url,
            thumbnail_urls,
            pin_code,
            description,
            uploaded_by_ip,
            image_hash: Some(image_hash),
            detected_text: None,
            cultural_context: None,
            is_lettering: true,
            status: LetteringStatus::Pending,
            likes_count: 0,
            comments_count: 0,
            report_count: 0,
            report_reasons: Vec::new(),
        }
    }
}

// ---------------------------------------------------------------------
// The workflow
// ---------------------------------------------------------------------

/// Where the upload stands.
#[derive(Debug, Clone, Copy, PartialEq, Eq, Structural)]
pub enum UploadStage {
    /// Waiting for the look-up of the content hash.
    CheckingDuplicate,
    /// Waiting for the original to be converted and stored.
    StoringOriginal,
    /// Waiting for the thumbnail with this position to be made and stored.
    StoringThumbnail(usize),
    /// Waiting for the lettering to be saved.
    Saving,
    /// Waiting for the recognition job to be queued.
    Queueing,
    /// A step failed after something was stored: waiting for what was
    /// stored to be deleted before the failure is reported.
    RemovingStored,
    /// Nothing more to do.
    Finished,
}

/// What the caller reports back.
#[derive(Debug, Clone)]
pub enum UploadEvent {
    /// A lettering with the same content hash exists.
    DuplicateFound { existing_id: String },
    /// No lettering has the content hash; the new lettering gets this id.
    NoDuplicate { lettering_id: String },
    /// The look-up failed.
    LookupFailed { error: String },
    /// The image could not be converted; the error says why.
    ConversionFailed { error: String },
    /// Storing failed.
    StorageFailed { error: String },
    /// Stored at this URL.
    Stored { url: String },
    /// Saved; the saved record's image URL.
    Saved { image_url: String },
    /// Saving failed.
    SaveFailed { error: String },
    /// The job was handed to the queue, whatever the queue answered.
    Enqueued,
    /// The stored objects were deleted, as far as the storage allowed.
    Removed,
}

/// What the caller does next.
#[derive(Debug, Clone)]
pub enum UploadAction {
    /// Look up a lettering by the content hash.
    FindByImageHash { image_hash: String },
    /// Convert the image to WebP no wider than `max_width` and store it
    /// under `key`.
    StoreOriginal { key: String, max_width: u32 },
    /// Resize the image to `width`, encode it as WebP and store it under
    /// `key`.
    StoreThumbnail { name: String, key: String, width: u32 },
    /// Save the lettering with these URLs.
    Save { image_url: String, thumbnail_urls: ThumbnailUrls },
    /// Queue the recognition job for the saved lettering.
    EnqueueMlJob { lettering_id: String, image_url: String },
    /// Delete the objects stored under these keys, so that a failed
    /// upload leaves nothing behind.
    DeleteStored { keys: Vec<String> },
    /// The upload failed with this message.
    Fail { message: String },
    /// The upload is done.
    Succeed,
}

/// An upload in progress.
pub struct UploadFlow {
    stage: UploadStage,
    image_hash: String,
    lettering_id: String,
    image_url: String,
    thumbnail_urls: Vec<String>,
    failure: String,
}

/// What the caller sees of an upload in progress.
pub struct UploadState {
    pub stage: UploadStage,
    pub image_hash: Seq<char>,
    pub lettering_id: Seq<char>,
    pub image_url: Seq<char>,
    pub thumbnail_urls: Seq<Seq<char>>,
    /// The message a failed upload reports once the clean-up is done.
    pub failure: Seq<char>,
}

impl View for UploadFlow {
    type V = UploadState;

    closed spec fn view(&self) -> UploadState {
        UploadState {
            stage: self.stage,
            image_hash: self.image_hash@,
            lettering_id: self.lettering_id@,
            image_url: self.image_url@,
            thumbnail_urls: self.thumbnail_urls.deep_view(),
            failure: self.failure@,
        }
    }
}

/// The event is one the stage waits for.
pub open spec fn expects(stage: UploadStage, event: UploadEvent) -> bool {
    match stage {
        UploadStage::CheckingDuplicate => match event {
            UploadEvent::DuplicateFound { .. } => true,
            UploadEvent::NoDuplicate { .. } => true,
            UploadEvent::LookupFailed { .. } => true,
            _ => false,
        },
        UploadStage::StoringOriginal | UploadStage::StoringThumbnail(_) => match event {
            UploadEvent::ConversionFailed { .. } => true,
            UploadEvent::StorageFailed { .. } => true,
            UploadEvent::Stored { .. } => true,
            _ => false,
        },
        UploadStage::Saving => match event {
            UploadEvent::Saved { .. } => true,
            UploadEvent::SaveFailed { .. } => true,
            _ => false,
        },
        UploadStage::Queueing => event is Enqueued,
        UploadStage::RemovingStored => event is Removed,
        UploadStage::Finished => false,
    }
}

/// The keys stored by the time the original and `n` thumbnails are in
/// storage: the original's, then the thumbnails' in order.
pub open spec fn stored_keys(lettering_id: Seq<char>, n: nat) -> Seq<Seq<char>> {
    seq![original_key(lettering_id)] + Seq::new(
        n,
        |j: int| thumbnail_key(lettering_id, thumbnail_name(j as nat)),
    )
}

/// Every key an upload has stored under by the time it fails (the
/// original's, and each of the first `n` thumbnails') is among the keys its
/// clean-up deletes, and nothing else is.
pub proof fn lemma_cleanup_covers_stores(lettering_id: Seq<char>, n: nat, j: nat)
    requires
        j < n <= 3,
    ensures
        stored_keys(lettering_id, n).contains(original_key(lettering_id)),
        stored_keys(lettering_id, n).contains(thumbnail_key(lettering_id, thumbnail_name(j))),
        stored_keys(lettering_id, n).len() == n + 1,
{
    let keys = stored_keys(lettering_id, n);
    assert(keys[0] == original_key(lettering_id));
    assert(keys[(j + 1) as int] == thumbnail_key(lettering_id, thumbnail_name(j)));
}

/// `a` deletes exactly the objects stored under `keys`.
pub open spec fn deletes(a: UploadAction, keys: Seq<Seq<char>>) -> bool {
    a matches UploadAction::DeleteStored { keys: k } && k.deep_view() == keys
}

/// A failure after `n` thumbnails were stored: what was stored is deleted
/// first, and `message` is reported afterwards.
pub open spec fn cleans_up(s: UploadState, n: nat, message: Seq<char>, t: UploadState, a: UploadAction) -> bool {
    &&& t.stage == UploadStage::RemovingStored
    &&& t.failure == message
    &&& deletes(a, stored_keys(s.lettering_id, n))
}

/// The message when the image was uploaded before.
pub open spec fn duplicate_message(existing_id: Seq<char>) -> Seq<char> {
    "This image has already been uploaded as lettering "@ + existing_id
        + ". Each image can only be uploaded once."@
}

/// The action that stores the thumbnail at position `i`.
pub open spec fn thumbnail_action_spec(lettering_id: Seq<char>, i: nat, a: UploadAction) -> bool {
    a matches UploadAction::StoreThumbnail { name, key, width } && name@ == thumbnail_name(i)
        && key@ == thumbnail_key(lettering_id, thumbnail_name(i)) && width == thumbnail_width(i)
}

/// `a` fails the upload with `message`.
pub open spec fn fails_with(a: UploadAction, message: Seq<char>) -> bool {
    a matches UploadAction::Fail { message: m } && m@ == message
}

fn concat(a: &str, b: &str) -> (r: String)
    ensures
        r@ == a@ + b@,
{
    let mut s = a.to_string();
    s.append(b);
    s
}

impl UploadFlow {
    /// Starts the upload of `image_data`: its content hash is computed and
    /// looked up first.
    pub fn start(image_data: &[u8]) -> (r: (UploadFlow, UploadAction))
        ensures
            r.0.wf(),
            r.0@.stage == UploadStage::CheckingDuplicate,
            r.0@.image_hash == hex_lower(sha256_digest(image_data@)),
            r.1 matches UploadAction::FindByImageHash { image_hash } && image_hash@ == r.0@.image_hash,
    {
        let hash = image_hash(image_data);
        let action = UploadAction::FindByImageHash { image_hash: hash.clone() };
        let flow = UploadFlow {
            stage: UploadStage::CheckingDuplicate,
            image_hash: hash,
            lettering_id: String::new(),
            image_url: String::new(),
            thumbnail_urls: Vec::new(),
            failure: String::new(),
        };
        proof {
            flow.lemma_start_wf();
        }
        (flow, action)
    }

    /// Where the upload stands.
    pub fn stage(&self) -> (r: UploadStage)
        ensures
            r == self@.stage,
    {
        self.stage
    }

    /// The content hash of the image.
    pub fn image_hash(&self) -> (r: &String)
        ensures
            r@ == self@.image_hash,
    {
        &self.image_hash
    }

    /// Whether the upload waits for `event`.
    pub fn accepts(&self, event: &UploadEvent) -> (r: bool)
        ensures
            r == expects(self@.stage, *event),
    {
        match self.stage {
            UploadStage::CheckingDuplicate => match event {
                UploadEvent::DuplicateFound { .. } => true,
                UploadEvent::NoDuplicate { .. } => true,
                UploadEvent::LookupFailed { .. } => true,
                _ => false,
            },
            UploadStage::StoringOriginal | UploadStage::StoringThumbnail(_) => match event {
                UploadEvent::ConversionFailed { .. } => true,
                UploadEvent::StorageFailed { .. } => true,
                UploadEvent::Stored { .. } => true,
                _ => false,
            },
            UploadStage::Saving => match event {
                UploadEvent::Saved { .. } => true,
                UploadEvent::SaveFailed { .. } => true,
                _ => false,
            },
            UploadStage::Queueing => match event {
                UploadEvent::Enqueued => true,
                _ => false,
            },
            UploadStage::RemovingStored => match event {
                UploadEvent::Removed => true,
                _ => false,
            },
            UploadStage::Finished => false,
        }
    }
}


/// One step of the upload: from state `s`, on `event`, to state `t` with
/// action `a`.
pub open spec fn transition(s: UploadState, event: UploadEvent, t: UploadState, a: UploadAction) -> bool {
    match s.stage {
        UploadStage::CheckingDuplicate => match event {
            UploadEvent::LookupFailed { error } => t.stage == UploadStage::Finished && fails_with(
                a,
                "Failed to check for duplicates: "@ + error@,
            ),
            UploadEvent::DuplicateFound { existing_id } => t.stage == UploadStage::Finished
                && fails_with(a, duplicate_message(existing_id@)),
            UploadEvent::NoDuplicate { lettering_id } => {
                &&& t.stage == UploadStage::StoringOriginal
                &&& t.lettering_id == lettering_id@
                &&& t.image_hash == s.image_hash
                &&& t.thumbnail_urls.len() == 0
                &&& a matches UploadAction::StoreOriginal { key, max_width } && key@ == original_key(
                    lettering_id@,
                ) && max_width == ORIGINAL_MAX_WIDTH
            },
            _ => false,
        },
        UploadStage::StoringOriginal => match event {
            UploadEvent::ConversionFailed { error } => t.stage == UploadStage::Finished
                && fails_with(a, error@),
            UploadEvent::StorageFailed { error } => t.stage == UploadStage::Finished && fails_with(
                a,
                "Failed to store image: "@ + error@,
            ),
            UploadEvent::Stored { url } => {
                &&& t.stage == UploadStage::StoringThumbnail(0)
                &&& t.image_url == url@
                &&& t.lettering_id == s.lettering_id
                &&& t.image_hash == s.image_hash
                &&& t.thumbnail_urls == s.thumbnail_urls
                &&& thumbnail_action_spec(s.lettering_id, 0, a)
            },
            _ => false,
        },
        UploadStage::StoringThumbnail(i) => match event {
            UploadEvent::ConversionFailed { error } => cleans_up(s, i as nat, error@, t, a),
            UploadEvent::StorageFailed { error } => cleans_up(
                s,
                i as nat,
                thumbnail_name(i as nat) + " thumbnail upload failed: "@ + error@,
                t,
                a,
            ),
            UploadEvent::Stored { url } => {
                &&& t.thumbnail_urls == s.thumbnail_urls.push(url@)
                &&& t.lettering_id == s.lettering_id
                &&& t.image_url == s.image_url
                &&& t.image_hash == s.image_hash
                &&& if i < 2 {
                    &&& t.stage == UploadStage::StoringThumbnail((i + 1) as usize)
                    &&& thumbnail_action_spec(s.lettering_id, (i + 1) as nat, a)
                } else {
                    &&& t.stage == UploadStage::Saving
                    &&& a matches UploadAction::Save { image_url, thumbnail_urls }
                        && image_url@ == s.image_url && thumbnail_urls.small@ == t.thumbnail_urls[0]
                        && thumbnail_urls.medium@ == t.thumbnail_urls[1] && thumbnail_urls.large@
                        == t.thumbnail_urls[2]
                }
            },
            _ => false,
        },
        UploadStage::Saving => match event {
            UploadEvent::SaveFailed { error } => cleans_up(
                s,
                3,
                "Failed to save lettering: "@ + error@,
                t,
                a,
            ),
            UploadEvent::Saved { image_url } => {
                &&& t.stage == UploadStage::Queueing
                &&& t.lettering_id == s.lettering_id
                &&& a matches UploadAction::EnqueueMlJob { lettering_id, image_url: u }
                    && lettering_id@ == s.lettering_id && u@ == image_url@
            },
            _ => false,
        },
        UploadStage::Queueing => t.stage == UploadStage::Finished && a is Succeed,
        UploadStage::RemovingStored => t.stage == UploadStage::Finished && fails_with(a, s.failure),
        UploadStage::Finished => false,
    }
}

impl UploadFlow {
    /// The thumbnails stored so far match the stage.
    pub closed spec fn wf(&self) -> bool {
        match self.stage {
            UploadStage::StoringThumbnail(i) => i < 3 && self.thumbnail_urls@.len() == i,
            UploadStage::StoringOriginal => self.thumbnail_urls@.len() == 0,
            UploadStage::CheckingDuplicate => self.thumbnail_urls@.len() == 0,
            UploadStage::Saving => self.thumbnail_urls@.len() == 3,
            _ => true,
        }
    }

    proof fn lemma_start_wf(&self)
        requires
            self.stage == UploadStage::CheckingDuplicate,
            self.thumbnail_urls@.len() == 0,
        ensures
            self.wf(),
    {
    }

    fn thumbnail_action(&self, i: usize) -> (a: UploadAction)
        requires
            i < 3,
        ensures
            thumbnail_action_spec(self@.lettering_id, i as nat, a),
    {
        let name = thumbnail_name_exec(i);
        let key = thumbnail_image_key(self.lettering_id.as_str(), name.as_str());
        let width: u32 = if i == 0 {
            200
        } else if i == 1 {
            600
        } else {
            1200
        };
        UploadAction::StoreThumbnail { name, key, width }
    }

    /// The keys of the original and the first `n` thumbnails.
    fn stored_keys_exec(&self, n: usize) -> (r: Vec<String>)
        requires
            n <= 3,
        ensures
            r.deep_view() == stored_keys(self@.lettering_id, n as nat),
    {
        let mut keys: Vec<String> = Vec::new();
        keys.push(original_image_key(self.lettering_id.as_str()));
        let mut j: usize = 0;
        while j < n
            invariant
                j <= n,
                n <= 3,
                keys.deep_view() == stored_keys(self@.lettering_id, j as nat),
            decreases n - j,
        {
            let name = thumbnail_name_exec(j);
            let key = thumbnail_image_key(self.lettering_id.as_str(), name.as_str());
            let ghost before = keys.deep_view();
            keys.push(key);
            proof {
                assert(keys.deep_view() =~= before.push(key@));
                assert(stored_keys(self@.lettering_id, (j + 1) as nat) =~= stored_keys(
                    self@.lettering_id,
                    j as nat,
                ).push(thumbnail_key(self@.lettering_id, thumbnail_name(j as nat))));
            }
            j = j + 1;
        }
        keys
    }

    /// Fails after the original and `n` thumbnails were stored: they are
    /// deleted first, and `message` is reported afterwards.
    fn clean_up(&mut self, n: usize, message: String) -> (a: UploadAction)
        requires
            n <= 3,
        ensures
            final(self)@.stage == UploadStage::RemovingStored,
            final(self)@.failure == message@,
            final(self)@.lettering_id == old(self)@.lettering_id,
            final(self).wf(),
            deletes(a, stored_keys(old(self)@.lettering_id, n as nat)),
    {
        let keys = self.stored_keys_exec(n);
        self.failure = message;
        self.stage = UploadStage::RemovingStored;
        UploadAction::DeleteStored { keys }
    }

    fn finish(&mut self, message: String) -> (a: UploadAction)
        ensures
            final(self)@.stage == UploadStage::Finished,
            final(self).wf(),
            fails_with(a, message@),
    {
        self.stage = UploadStage::Finished;
        UploadAction::Fail { message }
    }

    /// Takes the outcome of the last action and says what to do next.
    pub fn step(&mut self, event: UploadEvent) -> (a: UploadAction)
        requires
            old(self).wf(),
            expects(old(self)@.stage, event),
        ensures
            final(self).wf(),
            transition(old(self)@, event, final(self)@, a),
    {
        match self.stage {
            UploadStage::CheckingDuplicate => match event {
                UploadEvent::LookupFailed { error } => {
                    self.finish(concat("Failed to check for duplicates: ", error.as_str()))
                },
                UploadEvent::DuplicateFound { existing_id } => {
                    let mut m = String::from_str("This image has already been uploaded as lettering ");
                    m.append(existing_id.as_str());
                    m.append(". Each image can only be uploaded once.");
                    self.finish(m)
                },
                UploadEvent::NoDuplicate { lettering_id } => {
                    let key = original_image_key(lettering_id.as_str());
                    self.lettering_id = lettering_id;
                    self.stage = UploadStage::StoringOriginal;
                    UploadAction::StoreOriginal { key, max_width: ORIGINAL_MAX_WIDTH }
                },
                _ => UploadAction::Succeed,
            },
            UploadStage::StoringOriginal => match event {
                UploadEvent::ConversionFailed { error } => self.finish(error),
                UploadEvent::StorageFailed { error } => {
                    self.finish(concat("Failed to store image: ", error.as_str()))
                },
                UploadEvent::Stored { url } => {
                    self.image_url = url;
                    self.stage = UploadStage::StoringThumbnail(0);
                    self.thumbnail_action(0)
                },
                _ => UploadAction::Succeed,
            },
            UploadStage::StoringThumbnail(i) => match event {
                UploadEvent::ConversionFailed { error } => self.clean_up(i, error),
                UploadEvent::StorageFailed { error } => {
                    let name = thumbnail_name_exec(i);
                    let mut m = concat(name.as_str(), " thumbnail upload failed: ");
                    m.append(error.as_str());
                    self.clean_up(i, m)
                },
                UploadEvent::Stored { url } => {
                    let ghost before = self.thumbnail_urls.deep_view();
                    let ghost u = url@;
                    self.thumbnail_urls.push(url);
                    proof {
                        assert(self.thumbnail_urls.deep_view() =~= before.push(u));
                    }
                    if i < 2 {
                        self.stage = UploadStage::StoringThumbnail(i + 1);
                        self.thumbnail_action(i + 1)
                    } else {
                        self.stage = UploadStage::Saving;
                        let thumbnail_urls = ThumbnailUrls {
                            small: self.thumbnail_urls[0].clone(),
                            medium: self.thumbnail_urls[1].clone(),
                            large: self.thumbnail_urls[2].clone(),
                        };
                        UploadAction::Save { image_url: self.image_url.clone(), thumbnail_urls }
                    }
                },
                _ => UploadAction::Succeed,
            },
            UploadStage::Saving => match event {
                UploadEvent::SaveFailed { error } => {
                    self.clean_up(3, concat("Failed to save lettering: ", error.as_str()))
                },
                UploadEvent::Saved { image_url } => {
                    self.stage = UploadStage::Queueing;
                    UploadAction::EnqueueMlJob {
                        lettering_id: self.lettering_id.clone(),
                        image_url,
                    }
                },
                _ => UploadAction::Succeed,
            },
            UploadStage::Queueing => {
                self.stage = UploadStage::Finished;
                UploadAction::Succeed
            },
            UploadStage::RemovingStored => {
                let message = self.failure.clone();
                self.finish(message)
            },
            UploadStage::Finished => UploadAction::Succeed,
        }
    }
}
} // verus!

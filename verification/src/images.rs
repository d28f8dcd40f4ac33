//! Images in the conversation: their placeholders, and the cache of images that have been prepared
//! for a place on screen.

use crate::chars;
use crate::geometry::Size;
use crate::message;
use std::sync::Arc;
use vstd::prelude::*;

verus! {

pub const MAX_PREPARED_IMAGES: usize = 64;

pub const MAX_IN_FLIGHT_IMAGES: usize = 4;

/// An image to be shown.
#[derive(Debug, PartialEq, Eq, Hash)]
pub enum ImageSource {
    Url { url: String },
    Data { mime_type: String, data: Arc<Vec<u8>> },
}

/// The text that stands for an image of some bytes.
pub open spec fn data_placeholder(mime_type: Seq<char>, len: nat) -> Seq<char> {
    "[image: "@ + mime_type + ", "@ + chars::decimal(len) + " bytes]"@
}

/// The text that stands for bytes that are no image.
pub open spec fn invalid_placeholder(mime_type: Seq<char>, len: nat) -> Seq<char> {
    "[image: invalid "@ + mime_type + ", "@ + chars::decimal(len) + " bytes]"@
}

impl ImageSource {
    pub fn url(url: String) -> (source: ImageSource)
        ensures
            source == (ImageSource::Url { url }),
    {
        ImageSource::Url { url }
    }

    pub fn data(mime_type: String, data: Arc<Vec<u8>>) -> (source: ImageSource)
        ensures
            source == (ImageSource::Data { mime_type, data }),
    {
        ImageSource::Data { mime_type, data }
    }

    /// The text that stands for the image where it cannot be shown.
    pub open spec fn placeholder(&self) -> Seq<char> {
        match self {
            ImageSource::Url { .. } => "[image: url]"@,
            ImageSource::Data { mime_type, data } => data_placeholder(mime_type@, data@.len()),
        }
    }

    pub fn placeholder_text(&self) -> (text: String)
        ensures
            text@ == self.placeholder(),
    {
        match self {
            ImageSource::Url { .. } => "[image: url]".to_owned(),
            ImageSource::Data { mime_type, data } => {
                let mut text: String = "[image: ".to_owned();
                text.append(mime_type.as_str());
                text.append(", ");
                text.append(chars::format_decimal(data.len() as u64).as_str());
                text.append(" bytes]");
                text
            },
        }
    }
}

/// The text that stands for `len` bytes that could not be decoded.
pub fn invalid_image_text(mime_type: &str, len: usize) -> (text: String)
    ensures
        text@ == invalid_placeholder(mime_type@, len as nat),
{
    let mut text: String = "[image: invalid ".to_owned();
    text.append(mime_type);
    text.append(", ");
    text.append(chars::format_decimal(len as u64).as_str());
    text.append(" bytes]");
    text
}

/// The image of a message as an image to be shown.
pub open spec fn source_of(image: &message::ImageContent) -> ImageSource {
    match *image {
        message::ImageContent::Url { url } => ImageSource::Url { url },
        message::ImageContent::Data { mime_type, data } => ImageSource::Data { mime_type, data },
    }
}

/// The text that stands for an image of a message.
pub open spec fn image_placeholder(image: message::ImageView) -> Seq<char> {
    match image {
        message::ImageView::Url(_) => "[image: url]"@,
        message::ImageView::Data { mime_type, data } => data_placeholder(mime_type, data.len()),
    }
}

pub fn image_source(image: &message::ImageContent) -> (source: ImageSource)
    ensures
        source == source_of(image),
{
    match image.clone() {
        message::ImageContent::Url { url } => ImageSource::url(url),
        message::ImageContent::Data { mime_type, data } => ImageSource::data(mime_type, data),
    }
}

/// Whether the terminal is asked how it shows images: only an interactive one that has a name
/// other than `dumb`.
pub fn should_query_terminal_for(
    term: Option<&str>,
    stdin_is_terminal: bool,
    stdout_is_terminal: bool,
) -> (query: bool)
    ensures
        query == match term {
            Some(term) => term@.len() > 0 && term@ != "dumb"@ && stdin_is_terminal
                && stdout_is_terminal,
            None => false,
        },
{
    match term {
        Some(term) => {
            !term.is_empty() && !chars::same_text(term, "dumb") && stdin_is_terminal
                && stdout_is_terminal
        },
        None => false,
    }
}

/// What is known of an image that was to be prepared; `P` is what drawing it takes.
#[derive(Debug)]
pub enum PreparedImage<P> {
    Image(P),
    Placeholder(String),
    Loading,
}

impl<P> PreparedImage<P> {
    pub open spec fn spec_placeholder(&self) -> Option<Seq<char>> {
        match self {
            PreparedImage::Image(_) => None,
            PreparedImage::Placeholder(text) => Some(text@),
            PreparedImage::Loading => Some("[image loading]"@),
        }
    }

    /// The text to show in place of the image, where there is no image.
    pub fn placeholder(&self) -> (text: Option<&str>)
        ensures
            match text {
                Some(text) => self.spec_placeholder() == Some(text@),
                None => self.spec_placeholder() is None,
            },
    {
        match self {
            PreparedImage::Placeholder(text) => Some(text.as_str()),
            PreparedImage::Loading => Some("[image loading]"),
            PreparedImage::Image(_) => None,
        }
    }

    pub fn is_image(&self) -> (image: bool)
        ensures
            image == (self is Image),
    {
        match self {
            PreparedImage::Image(_) => true,
            _ => false,
        }
    }
}

/// `image::DynamicImage`: an image in memory.
#[verifier::external_type_specification]
#[verifier::external_body]
pub struct ExDynamicImage(image::DynamicImage);

/// An image as plain values: its size, a number that stands for its type of colour, and its pixels.
pub struct Picture {
    pub width: u32,
    pub height: u32,
    pub color: int,
    pub pixels: Seq<u8>,
}

/// What an image shows.
pub uninterp spec fn picture_of(image: image::DynamicImage) -> Picture;

/// What the image shows that bytes encode, if they encode one in a format that can be read.
pub uninterp spec fn picture_in(data: Seq<u8>) -> Option<Picture>;

/// `image::load_from_memory`: the image that bytes encode, if they encode one.
#[verifier::external_body]
fn load_image(data: &Vec<u8>) -> (image: Option<image::DynamicImage>)
    ensures
        match image {
            Some(image) => picture_in(data@) == Some(picture_of(image)),
            None => picture_in(data@) is None,
        },
{
    image::load_from_memory(data.as_slice()).ok()
}

/// The image that bytes encode, or the text that stands for bytes that are none.
pub fn decode_data_image(mime_type: &str, data: &Vec<u8>) -> (decoded: Result<
    image::DynamicImage,
    String,
>)
    ensures
        match decoded {
            Ok(image) => picture_in(data@) == Some(picture_of(image)),
            Err(text) => {
                &&& picture_in(data@) is None
                &&& text@ == invalid_placeholder(mime_type@, data@.len())
            },
        },
{
    match load_image(data) {
        Some(image) => Ok(image),
        None => Err(invalid_image_text(mime_type, data.len())),
    }
}

/// What is kept of an image once it was to be made ready for drawing, which may fail.
pub fn prepared_image<P>(drawn: Option<P>, mime_type: &str, len: usize) -> (prepared: PreparedImage<
    P,
>)
    ensures
        match drawn {
            Some(image) => prepared == PreparedImage::Image(image),
            None => prepared matches PreparedImage::Placeholder(text) && text@
                == invalid_placeholder(mime_type@, len as nat),
        },
{
    match drawn {
        Some(image) => PreparedImage::Image(image),
        None => PreparedImage::Placeholder(invalid_image_text(mime_type, len)),
    }
}

/// An image prepared for a place of a certain size. Images made of bytes are told apart by
/// `identity`, a number that stands for where the bytes are kept, and not by the bytes.
#[derive(Debug)]
pub struct PreparedImageKey {
    pub image: ImageSource,
    pub identity: u64,
    pub width: u16,
    pub height: u16,
}

/// What tells prepared images apart.
pub struct KeyView {
    pub url: Option<Seq<char>>,
    pub mime_type: Seq<char>,
    pub identity: u64,
    pub width: u16,
    pub height: u16,
}

impl View for PreparedImageKey {
    type V = KeyView;

    open spec fn view(&self) -> KeyView {
        match self.image {
            ImageSource::Url { url } => KeyView {
                url: Some(url@),
                mime_type: Seq::empty(),
                identity: 0,
                width: self.width,
                height: self.height,
            },
            ImageSource::Data { mime_type, .. } => KeyView {
                url: None,
                mime_type: mime_type@,
                identity: self.identity,
                width: self.width,
                height: self.height,
            },
        }
    }
}

impl PreparedImageKey {
    pub fn new(image: ImageSource, identity: u64, size: Size) -> (key: PreparedImageKey)
        ensures
            key.image == image,
            key.identity == identity,
            key.width == size.width,
            key.height == size.height,
    {
        PreparedImageKey { image, identity, width: size.width, height: size.height }
    }

    fn same(&self, other: &PreparedImageKey) -> (same: bool)
        ensures
            same == (self@ == other@),
    {
        if self.width != other.width || self.height != other.height {
            return false;
        }
        match (&self.image, &other.image) {
            (ImageSource::Url { url: a }, ImageSource::Url { url: b }) => chars::same_text(
                a.as_str(),
                b.as_str(),
            ),
            (
                ImageSource::Data { mime_type: a, .. },
                ImageSource::Data { mime_type: b, .. },
            ) => self.identity == other.identity && chars::same_text(a.as_str(), b.as_str()),
            _ => false,
        }
    }
}

/// A prepared image, with what it was prepared for.
#[derive(Debug)]
pub struct CacheEntry<P> {
    pub key: PreparedImageKey,
    pub prepared: PreparedImage<P>,
}

/// Where a key stands among the first `count` keys.
pub open spec fn find_key(keys: Seq<KeyView>, key: KeyView, count: int) -> Option<int>
    decreases count,
{
    if count <= 0 {
        None
    } else {
        match find_key(keys, key, count - 1) {
            Some(i) => Some(i),
            None => if keys[count - 1] == key {
                Some(count - 1)
            } else {
                None
            },
        }
    }
}

pub open spec fn position(keys: Seq<KeyView>, key: KeyView) -> Option<int> {
    find_key(keys, key, keys.len() as int)
}

pub proof fn lemma_find_key(keys: Seq<KeyView>, key: KeyView, count: int)
    requires
        count <= keys.len(),
    ensures
        match find_key(keys, key, count) {
            Some(i) => 0 <= i < count && keys[i] == key && forall|j: int|
                0 <= j < i ==> #[trigger] keys[j] != key,
            None => forall|j: int| 0 <= j < count ==> #[trigger] keys[j] != key,
        },
    decreases count,
{
    if count > 0 {
        lemma_find_key(keys, key, count - 1);
    }
}

/// Prepared images, from the one used longest ago to the one used last, and the images that are
/// being prepared.
pub struct CacheView<P> {
    pub entries: Seq<(KeyView, PreparedImage<P>)>,
    pub in_flight: Seq<KeyView>,
}

pub open spec fn keys_of<P>(entries: Seq<(KeyView, PreparedImage<P>)>) -> Seq<KeyView> {
    Seq::new(entries.len(), |i: int| entries[i].0)
}

/// The entries with one more at the end, without the oldest where there are too many.
pub open spec fn with_entry<P>(
    entries: Seq<(KeyView, PreparedImage<P>)>,
    key: KeyView,
    prepared: PreparedImage<P>,
) -> Seq<(KeyView, PreparedImage<P>)> {
    let others = match position(keys_of(entries), key) {
        Some(i) => entries.remove(i),
        None => entries,
    };
    let all = others.push((key, prepared));
    if all.len() > MAX_PREPARED_IMAGES {
        all.skip(all.len() - MAX_PREPARED_IMAGES)
    } else {
        all
    }
}

impl<P> CacheView<P> {
    /// The prepared image of a key.
    pub open spec fn lookup(self, key: KeyView) -> Option<PreparedImage<P>> {
        match position(keys_of(self.entries), key) {
            Some(i) => Some(self.entries[i].1),
            None => None,
        }
    }

    /// The cache after an entry was used: it is the last one now.
    pub open spec fn touched(self, key: KeyView) -> CacheView<P> {
        match position(keys_of(self.entries), key) {
            Some(i) => CacheView {
                entries: self.entries.remove(i).push(self.entries[i]),
                ..self
            },
            None => self,
        }
    }

    /// The cache after an image was prepared.
    pub open spec fn finished(self, key: KeyView, prepared: PreparedImage<P>) -> CacheView<P> {
        CacheView {
            entries: with_entry(self.entries, key, prepared),
            in_flight: match position(self.in_flight, key) {
                Some(i) => self.in_flight.remove(i),
                None => self.in_flight,
            },
        }
    }

    /// Whether an image can be started on: there is room for it, and it was not started yet.
    pub open spec fn can_start(self, key: KeyView) -> bool {
        self.in_flight.len() < MAX_IN_FLIGHT_IMAGES && position(self.in_flight, key) is None
    }

    /// No key occurs twice, and both parts stay within their limits.
    pub open spec fn well_formed(self) -> bool {
        &&& keys_of(self.entries).no_duplicates()
        &&& self.in_flight.no_duplicates()
        &&& self.entries.len() <= MAX_PREPARED_IMAGES
        &&& self.in_flight.len() <= MAX_IN_FLIGHT_IMAGES
    }
}

/// What to do about an image that is to be shown.
#[derive(Debug, PartialEq, Eq)]
pub enum PrepareStep {
    /// The image at the end of the cache is the one.
    Ready,
    /// It is being prepared, or has to wait; a placeholder is shown.
    Loading,
    /// It is to be prepared now; a placeholder is shown.
    Start,
}

/// The cache of prepared images.
#[derive(Debug)]
pub struct ImageCache<P> {
    entries: Vec<CacheEntry<P>>,
    in_flight: Vec<PreparedImageKey>,
}

impl<P> View for ImageCache<P> {
    type V = CacheView<P>;

    closed spec fn view(&self) -> CacheView<P> {
        CacheView {
            entries: Seq::new(
                self.entries@.len(),
                |i: int| (self.entries@[i].key@, self.entries@[i].prepared),
            ),
            in_flight: Seq::new(self.in_flight@.len(), |i: int| self.in_flight@[i]@),
        }
    }
}

impl<P> Default for ImageCache<P> {
    fn default() -> (cache: Self)
        ensures
            cache@.entries == Seq::<(KeyView, PreparedImage<P>)>::empty(),
            cache@.in_flight == Seq::<KeyView>::empty(),
    {
        let cache = ImageCache { entries: Vec::new(), in_flight: Vec::new() };
        assert(cache@.entries =~= Seq::<(KeyView, PreparedImage<P>)>::empty());
        assert(cache@.in_flight =~= Seq::<KeyView>::empty());
        cache
    }
}

impl<P> ImageCache<P> {
    pub fn len(&self) -> (len: usize)
        ensures
            len == self@.entries.len(),
    {
        self.entries.len()
    }

    pub fn has_in_flight(&self) -> (any: bool)
        ensures
            any == (self@.in_flight.len() > 0),
    {
        self.in_flight.len() > 0
    }

    /// The entry that was used last.
    pub fn latest(&self) -> (latest: Option<&PreparedImage<P>>)
        ensures
            match latest {
                Some(prepared) => self@.entries.len() > 0 && *prepared == self@.entries.last().1,
                None => self@.entries.len() == 0,
            },
    {
        if self.entries.len() == 0 {
            None
        } else {
            Some(&self.entries[self.entries.len() - 1].prepared)
        }
    }

    fn entry_index(&self, key: &PreparedImageKey) -> (found: Option<usize>)
        ensures
            match found {
                Some(i) => i < self.entries@.len() && position(keys_of(self@.entries), key@)
                    == Some(i as int),
                None => position(keys_of(self@.entries), key@) is None,
            },
    {
        let ghost keys = keys_of(self@.entries);
        let ghost total = self.entries@.len() as int;
        let mut i: usize = 0;
        while i < self.entries.len()
            invariant
                i <= self.entries@.len(),
                keys == keys_of(self@.entries),
                total == self.entries@.len(),
                find_key(keys, key@, i as int) is None,
            decreases self.entries@.len() - i,
        {
            assert(keys[i as int] == self.entries@[i as int].key@);
            if self.entries[i].key.same(key) {
                proof {
                    lemma_find_key_stays(keys, key@, i as int, total);
                }
                return Some(i);
            }
            i = i + 1;
        }
        None
    }

    fn in_flight_index(&self, key: &PreparedImageKey) -> (found: Option<usize>)
        ensures
            match found {
                Some(i) => i < self.in_flight@.len() && position(self@.in_flight, key@) == Some(
                    i as int,
                ),
                None => position(self@.in_flight, key@) is None,
            },
    {
        let ghost keys = self@.in_flight;
        let ghost total = self.in_flight@.len() as int;
        let mut i: usize = 0;
        while i < self.in_flight.len()
            invariant
                i <= self.in_flight@.len(),
                keys == self@.in_flight,
                total == self.in_flight@.len(),
                find_key(keys, key@, i as int) is None,
            decreases self.in_flight@.len() - i,
        {
            assert(keys[i as int] == self.in_flight@[i as int]@);
            if self.in_flight[i].same(key) {
                proof {
                    lemma_find_key_stays(keys, key@, i as int, total);
                }
                return Some(i);
            }
            i = i + 1;
        }
        None
    }

    /// Looks an image up. One that was prepared is used, an address is shown as its placeholder,
    /// and bytes are prepared unless they already are being prepared or too many others are.
    pub fn prepare_for_area(&mut self, key: PreparedImageKey) -> (step: PrepareStep)
        ensures
            match old(self)@.lookup(key@) {
                Some(prepared) => step == PrepareStep::Ready && final(self)@ == old(self)@.touched(
                    key@,
                ) && final(self)@.entries.last().1 == prepared,
                None => match key.image {
                    ImageSource::Url { .. } => {
                        &&& step == PrepareStep::Ready
                        &&& exists|prepared: PreparedImage<P>|
                            {
                                &&& final(self)@ == #[trigger] old(self)@.finished(key@, prepared)
                                &&& prepared is Placeholder
                                &&& prepared.spec_placeholder() == Some(key.image.placeholder())
                            }
                    },
                    ImageSource::Data { .. } => if old(self)@.can_start(key@) {
                        &&& step == PrepareStep::Start
                        &&& final(self)@ == (CacheView {
                            in_flight: old(self)@.in_flight.push(key@),
                            ..old(self)@
                        })
                    } else {
                        step == PrepareStep::Loading && final(self)@ == old(self)@
                    },
                },
            },
    {
        let ghost before = self@;
        proof {
            lemma_find_key(keys_of(before.entries), key@, before.entries.len() as int);
        }
        if let Some(i) = self.entry_index(&key) {
            let entry = self.entries.remove(i);
            self.entries.push(entry);
            assert(self@.entries =~= before.touched(key@).entries);
            assert(self@.in_flight =~= before.in_flight);
            return PrepareStep::Ready;
        }
        let is_url = match &key.image {
            ImageSource::Url { .. } => true,
            ImageSource::Data { .. } => false,
        };
        if is_url {
            let prepared = PreparedImage::Placeholder(key.image.placeholder_text());
            self.finish_prepared(key, prepared);
            return PrepareStep::Ready;
        }
        if self.in_flight.len() >= MAX_IN_FLIGHT_IMAGES {
            return PrepareStep::Loading;
        }
        if self.in_flight_index(&key).is_some() {
            return PrepareStep::Loading;
        }
        self.in_flight.push(key);
        assert(self@.in_flight =~= before.in_flight.push(key@));
        assert(self@.entries =~= before.entries);
        PrepareStep::Start
    }

    /// Takes in an image that was prepared.
    pub fn finish_prepared(&mut self, key: PreparedImageKey, prepared: PreparedImage<P>)
        ensures
            final(self)@ == old(self)@.finished(key@, prepared),
    {
        let ghost before = self@;
        proof {
            lemma_find_key(keys_of(before.entries), key@, before.entries.len() as int);
            lemma_find_key(before.in_flight, key@, before.in_flight.len() as int);
        }
        if let Some(i) = self.in_flight_index(&key) {
            self.in_flight.remove(i);
        }
        assert(self@.in_flight =~= before.finished(key@, prepared).in_flight);
        assert(self@.entries =~= before.entries);
        if let Some(i) = self.entry_index(&key) {
            self.entries.remove(i);
        }
        self.entries.push(CacheEntry { key, prepared });
        let ghost all = self@.entries;
        let ghost others = match position(keys_of(before.entries), key@) {
            Some(i) => before.entries.remove(i),
            None => before.entries,
        };
        assert(all =~= others.push((key@, prepared)));
        let ghost mut dropped: int = 0;
        assert(self@.entries =~= all.skip(0));
        while self.entries.len() > MAX_PREPARED_IMAGES
            invariant
                0 <= dropped,
                self@.entries == all.skip(dropped),
                self@.entries.len() == self.entries@.len(),
                dropped + self.entries@.len() == all.len(),
                dropped > 0 ==> self.entries@.len() >= MAX_PREPARED_IMAGES,
                self@.in_flight == before.finished(key@, prepared).in_flight,
            decreases self.entries@.len(),
        {
            let ghost round = self@.entries;
            self.entries.remove(0);
            assert(self@.entries =~= round.skip(1));
            proof {
                dropped = dropped + 1;
            }
            assert(round.skip(1) =~= all.skip(dropped));
            assert(self@.entries =~= all.skip(dropped));
        }
        assert(self@.entries =~= before.finished(key@, prepared).entries);
    }
}

proof fn lemma_find_key_stays(keys: Seq<KeyView>, key: KeyView, i: int, count: int)
    requires
        0 <= i < count <= keys.len(),
        find_key(keys, key, i) is None,
        keys[i] == key,
    ensures
        find_key(keys, key, count) == Some(i),
    decreases count,
{
    if count > i + 1 {
        lemma_find_key_stays(keys, key, i, count - 1);
    }
}

/// Taking in a prepared image keeps the cache within its limits and without duplicates; the image
/// can be looked up then, and its preparation is over.
pub proof fn law_finished_image_is_cached<P>(
    cache: CacheView<P>,
    key: KeyView,
    prepared: PreparedImage<P>,
)
    requires
        cache.well_formed(),
    ensures
        cache.finished(key, prepared).well_formed(),
        cache.finished(key, prepared).lookup(key) == Some(prepared),
        position(cache.finished(key, prepared).in_flight, key) is None,
{
    let after = cache.finished(key, prepared);
    let keys = keys_of(cache.entries);
    lemma_find_key(keys, key, keys.len() as int);
    lemma_find_key(cache.in_flight, key, cache.in_flight.len() as int);
    lemma_find_key(after.in_flight, key, after.in_flight.len() as int);
    let others = match position(keys, key) {
        Some(i) => cache.entries.remove(i),
        None => cache.entries,
    };
    assert forall|j: int| 0 <= j < others.len() implies (#[trigger] others[j]).0 != key by {
        match position(keys, key) {
            Some(i) => {
                if j < i {
                    assert(others[j] == cache.entries[j]);
                    assert(keys[j] != key);
                } else {
                    assert(others[j] == cache.entries[j + 1]);
                    assert(keys[j + 1] != keys[i]);
                }
            },
            None => {
                assert(keys[j] != key);
            },
        }
    }
    let all = others.push((key, prepared));
    assert forall|a: int, b: int| 0 <= a < all.len() && 0 <= b < all.len() && a != b implies (
    #[trigger] all[a]).0 != (#[trigger] all[b]).0 by {
        if a < others.len() && b < others.len() {
            match position(keys, key) {
                Some(i) => {
                    let x = if a < i {
                        a
                    } else {
                        a + 1
                    };
                    let y = if b < i {
                        b
                    } else {
                        b + 1
                    };
                    assert(all[a].0 == keys[x]);
                    assert(all[b].0 == keys[y]);
                    assert(x != y);
                },
                None => {
                    assert(all[a].0 == keys[a]);
                    assert(all[b].0 == keys[b]);
                },
            }
        }
    }
    let skipped = if all.len() > MAX_PREPARED_IMAGES {
        all.len() - MAX_PREPARED_IMAGES
    } else {
        0
    };
    assert(after.entries =~= all.skip(skipped));
    let after_keys = keys_of(after.entries);
    assert forall|a: int, b: int|
        0 <= a < after_keys.len() && 0 <= b < after_keys.len() && a != b implies after_keys[a]
        != after_keys[b] by {
        assert(after_keys[a] == all[a + skipped].0);
        assert(after_keys[b] == all[b + skipped].0);
    }
    let last = after.entries.len() - 1;
    assert(after.entries[last] == all[all.len() - 1]);
    lemma_find_key(after_keys, key, after_keys.len() as int);
    assert(after_keys[last] == key);
    assert forall|a: int, b: int|
        0 <= a < after.in_flight.len() && 0 <= b < after.in_flight.len() && a
            != b implies after.in_flight[a] != after.in_flight[b] by {
        match position(cache.in_flight, key) {
            Some(i) => {
                let x = if a < i {
                    a
                } else {
                    a + 1
                };
                let y = if b < i {
                    b
                } else {
                    b + 1
                };
                assert(after.in_flight[a] == cache.in_flight[x]);
                assert(after.in_flight[b] == cache.in_flight[y]);
            },
            None => {},
        }
    }
    match position(after.in_flight, key) {
        Some(a) => {
            match position(cache.in_flight, key) {
                Some(i) => {
                    let x = if a < i {
                        a
                    } else {
                        a + 1
                    };
                    assert(after.in_flight[a] == cache.in_flight[x]);
                    assert(cache.in_flight[x] == cache.in_flight[i]);
                },
                None => {},
            }
        },
        None => {},
    }
}

/// An image is found in the cache just where it was prepared, as it was prepared.
pub proof fn law_prepared_images_are_found<P>(cache: CacheView<P>, key: KeyView, at: int)
    requires
        cache.well_formed(),
    ensures
        0 <= at < cache.entries.len() && cache.entries[at].0 == key ==> cache.lookup(key) == Some(
            cache.entries[at].1,
        ),
        (forall|i: int| 0 <= i < cache.entries.len() ==> (#[trigger] cache.entries[i]).0 != key)
            ==> cache.lookup(key) is None,
{
    let keys = keys_of(cache.entries);
    lemma_find_key(keys, key, keys.len() as int);
    if 0 <= at < cache.entries.len() && cache.entries[at].0 == key {
        assert(keys[at] == key);
    }
    if let Some(i) = position(keys, key) {
        assert(keys[i] == cache.entries[i].0);
    }
}

/// Taking in an image puts it behind all others. The others stay as they are and in their order,
/// but for the one that was used longest ago where there are more than 64.
pub proof fn law_oldest_image_is_dropped<P>(
    cache: CacheView<P>,
    key: KeyView,
    prepared: PreparedImage<P>,
)
    requires
        cache.well_formed(),
        forall|i: int| 0 <= i < cache.entries.len() ==> (#[trigger] cache.entries[i]).0 != key,
    ensures
        cache.finished(key, prepared).entries.last() == (key, prepared),
        cache.entries.len() < 64 ==> cache.finished(key, prepared).entries.drop_last()
            == cache.entries,
        cache.entries.len() == 64 ==> cache.finished(key, prepared).entries.drop_last()
            == cache.entries.skip(1),
{
    let keys = keys_of(cache.entries);
    lemma_find_key(keys, key, keys.len() as int);
    if let Some(i) = position(keys, key) {
        assert(keys[i] == cache.entries[i].0);
    }
    let after = cache.finished(key, prepared).entries;
    if cache.entries.len() < 64 {
        assert(after.drop_last() =~= cache.entries);
    } else {
        assert(after.drop_last() =~= cache.entries.skip(1));
    }
}

/// To use an image moves it behind all others, which keep their order.
pub proof fn law_used_images_move_to_the_end<P>(cache: CacheView<P>, key: KeyView, at: int)
    requires
        cache.well_formed(),
        0 <= at < cache.entries.len(),
        cache.entries[at].0 == key,
    ensures
        cache.touched(key).entries.last() == cache.entries[at],
        cache.touched(key).entries.drop_last() == cache.entries.remove(at),
        cache.touched(key).in_flight == cache.in_flight,
        cache.touched(key).lookup(key) == cache.lookup(key),
{
    let keys = keys_of(cache.entries);
    lemma_find_key(keys, key, keys.len() as int);
    assert(keys[at] == key);
    let after = cache.touched(key);
    assert(after.entries.drop_last() =~= cache.entries.remove(at));
    let after_keys = keys_of(after.entries);
    lemma_find_key(after_keys, key, after_keys.len() as int);
    assert(after_keys.last() == key);
    assert forall|i: int| 0 <= i < after_keys.len() - 1 implies #[trigger] after_keys[i] != key by {
        let j = if i < at {
            i
        } else {
            i + 1
        };
        assert(after.entries[i] == cache.entries[j]);
        assert(keys[j] != keys[at]);
    }
}

/// At most four images are prepared at a time, and none of them twice.
pub proof fn law_four_images_are_prepared_at_a_time<P>(cache: CacheView<P>, key: KeyView, at: int)
    requires
        cache.well_formed(),
    ensures
        cache.can_start(key) <==> cache.in_flight.len() < 4 && forall|i: int|
            0 <= i < cache.in_flight.len() ==> #[trigger] cache.in_flight[i] != key,
{
    lemma_find_key(cache.in_flight, key, cache.in_flight.len() as int);
}

/// Where an image cannot be shown, what stands for it tells what it is: an address, or bytes of a type
/// and how many. Bytes that are no image are told to be none.
pub proof fn law_placeholders_tell_what_the_image_is(
    image: message::ImageContent,
    mime_type: Seq<char>,
    len: nat,
)
    ensures
        data_placeholder(mime_type, len) == "[image: "@ + mime_type + ", "@ + chars::decimal(len)
            + " bytes]"@,
        invalid_placeholder(mime_type, len) == "[image: invalid "@ + mime_type + ", "@
            + chars::decimal(len) + " bytes]"@,
        image_placeholder(image@) == source_of(&image).placeholder(),
        image matches message::ImageContent::Url { url } ==> source_of(&image) == (
        ImageSource::Url { url }) && image_placeholder(image@) == "[image: url]"@,
        image matches message::ImageContent::Data { mime_type, data } ==> source_of(&image) == (
        ImageSource::Data { mime_type, data }) && image_placeholder(image@) == data_placeholder(
            mime_type@,
            data@.len(),
        ),
{
}

/// An image that is ready is shown as it is; until then, and where there is none, a text is shown.
pub proof fn law_only_ready_images_are_shown<P>(image: P, text: String)
    ensures
        PreparedImage::Image(image).spec_placeholder() is None,
        PreparedImage::<P>::Placeholder(text).spec_placeholder() == Some(text@),
        PreparedImage::<P>::Loading.spec_placeholder() == Some("[image loading]"@),
{
}

} // verus!

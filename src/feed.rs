//! Construction of the feed document: channel image, block directive and one
//! episode per audio file with a synthetic publication date.
use vstd::prelude::*;
use crate::listing::{FeedError, FolderContents};
use rss::extension::itunes::{ITunesChannelExtension, NAMESPACE};
use rss::{Channel, Enclosure, Item};
use crate::text::{owned, push_all, spaces_for_underscores, underscores_to_spaces};

verus! {

/// First and last day (counted from 1970-01-01) whose midnight has an RFC 2822
/// form: the format covers the years 0 through 9999.
pub const FIRST_DAY: i64 = -719000;
pub const LAST_DAY: i64 = 2932000;
pub const SECONDS_PER_DAY: i64 = 86400;

/// One episode of the feed.
#[derive(Clone, Debug)]
pub struct FeedItem {
    pub title: String,
    pub url: String,
    pub mime_type: String,
    pub length: usize,
    pub pub_day: i64,
    pub pub_date: String,
}

/// The feed document: a channel with its podcast image and block directive,
/// and its episodes.
#[derive(Clone, Debug)]
pub struct FeedDocument {
    pub title: String,
    pub image_url: String,
    pub block: String,
    pub items: Vec<FeedItem>,
}

/// What an episode holds, as mathematical values.
pub struct ItemModel {
    pub title: Seq<char>,
    pub url: Seq<char>,
    pub mime_type: Seq<char>,
    pub length: nat,
    pub pub_day: int,
    pub pub_date: Seq<char>,
}

/// What a feed document holds, as mathematical values.
pub struct FeedModel {
    pub title: Seq<char>,
    pub image_url: Seq<char>,
    pub block: Seq<char>,
    pub items: Seq<ItemModel>,
}

impl View for FeedItem {
    type V = ItemModel;

    open spec fn view(&self) -> ItemModel {
        ItemModel {
            title: self.title@,
            url: self.url@,
            mime_type: self.mime_type@,
            length: self.length as nat,
            pub_day: self.pub_day as int,
            pub_date: self.pub_date@,
        }
    }
}

impl View for FeedDocument {
    type V = FeedModel;

    open spec fn view(&self) -> FeedModel {
        FeedModel {
            title: self.title@,
            image_url: self.image_url@,
            block: self.block@,
            items: Seq::new(self.items@.len(), |i: int| self.items@[i]@),
        }
    }
}

/// The RFC 2822 text, in UTC, of the given Unix time.
pub uninterp spec fn rfc2822_of(secs: int) -> Seq<char>;

/// The RSS document that the `rss` crate writes for a feed.
pub uninterp spec fn rss_text(doc: FeedModel) -> Seq<char>;

/// Relies on chrono's `DateTime::from_timestamp` and `DateTime::to_rfc2822`:
/// the text depends on the time alone; times in the years 0 to 9999 neither
/// make `from_timestamp` return `None` nor make `to_rfc2822` panic.
#[verifier::external_body]
fn rfc2822_at(secs: i64) -> (r: String)
    requires
        FIRST_DAY * SECONDS_PER_DAY <= secs <= LAST_DAY * SECONDS_PER_DAY,
    ensures
        r@ == rfc2822_of(secs as int),
{
    chrono::DateTime::from_timestamp(secs, 0).unwrap().to_rfc2822()
}

/// Relies on `rss::Channel`'s `Display`: the channel with the podcast
/// extension's image and block, and one item with an enclosure per episode.
#[verifier::external_body]
fn rss_channel_text(doc: &FeedDocument) -> (r: String)
    ensures
        r@ == rss_text(doc@),
{
    let items = doc.items.iter().map(|i| Item {
        title: Some(i.title.clone()),
        pub_date: Some(i.pub_date.clone()),
        enclosure: Some(Enclosure { url: i.url.clone(), length: i.length.to_string(), mime_type: i.mime_type.clone() }),
        ..Default::default()
    }).collect();
    let ext = ITunesChannelExtension { image: Some(doc.image_url.clone()), block: Some(doc.block.clone()), ..Default::default() };
    let namespaces = [("itunes".to_string(), NAMESPACE.to_string())].into();
    Channel { title: doc.title.clone(), namespaces, itunes_ext: Some(ext), items, ..Default::default() }.to_string()
}

/// `base + "/libation-files/" + folder + "/" + file`: where the static file
/// area serves a book folder's file.
pub open spec fn asset_url(base: Seq<char>, folder: Seq<char>, file: Seq<char>) -> Seq<char> {
    base + "/libation-files/"@ + folder + "/"@ + file
}

/// The episode for the audio file at position `i`, published `i` days before `today`.
pub open spec fn item_model(base: Seq<char>, folder: Seq<char>, file: Seq<char>, today: int, i: int) -> ItemModel {
    ItemModel {
        title: underscores_to_spaces(file),
        url: asset_url(base, folder, file),
        mime_type: "audio/mpeg"@,
        length: file.len(),
        pub_day: today - i,
        pub_date: rfc2822_of((today - i) * SECONDS_PER_DAY),
    }
}

/// The feed for the given title, book folder, base URL, cover image and
/// ascending audio names, with the first episode published on `today`.
pub open spec fn feed_model(
    title: Seq<char>,
    folder: Seq<char>,
    base: Seq<char>,
    image: Seq<char>,
    audio: Seq<Seq<char>>,
    today: int,
) -> FeedModel {
    FeedModel {
        title,
        image_url: asset_url(base, folder, image),
        block: "Yes"@,
        items: Seq::new(audio.len(), |i: int| item_model(base, folder, audio[i], today, i)),
    }
}

/// The day (counted from 1970-01-01 UTC) that holds the Unix time `secs`.
pub fn day_of_timestamp(secs: i64) -> (r: i64)
    ensures
        r * SECONDS_PER_DAY <= secs < (r + 1) * SECONDS_PER_DAY,
{
    if secs >= 0 {
        let r = secs / SECONDS_PER_DAY;
        assert(r * 86400 <= secs < (r + 1) * 86400) by (nonlinear_arith)
            requires r == secs / 86400, secs >= 0;
        r
    } else {
        let q = (-(secs + 1)) / SECONDS_PER_DAY;
        assert(q * 86400 <= -(secs + 1) < (q + 1) * 86400) by (nonlinear_arith)
            requires q == (-(secs + 1)) / 86400, secs < 0;
        -q - 1
    }
}

fn asset_url_exec(base: &str, folder: &str, file: &str) -> (r: String)
    ensures
        r@ == asset_url(base@, folder@, file@),
{
    let mut r = owned(base);
    push_all(&mut r, "/libation-files/");
    push_all(&mut r, folder);
    push_all(&mut r, "/");
    push_all(&mut r, file);
    r
}

/// Builds the feed: channel image at the folder's `image` file, block
/// directive set, and for the audio file at position `i` an episode titled by
/// its name with underscores as spaces, an `audio/mpeg` enclosure at its asset
/// URL whose length is the name's character count, published at midnight UTC
/// `i` days before `today`.
pub fn build_feed(
    title: &str,
    folder_name: &str,
    base_url: &str,
    image: &str,
    audio: &Vec<String>,
    today: i64,
) -> (r: FeedDocument)
    requires
        today <= LAST_DAY,
        FIRST_DAY + audio@.len() <= today + 1,
    ensures
        r@ == feed_model(title@, folder_name@, base_url@, image@, Seq::new(audio@.len(), |i: int| audio@[i]@), today as int),
{
    let ghost names = Seq::new(audio@.len(), |i: int| audio@[i]@);
    let mut items: Vec<FeedItem> = Vec::new();
    let mut i: usize = 0;
    while i < audio.len()
        invariant
            i <= audio@.len(),
            today <= LAST_DAY,
            FIRST_DAY + audio@.len() <= today + 1,
            names == Seq::new(audio@.len(), |i: int| audio@[i]@),
            items@.len() == i,
            forall|k: int| 0 <= k < i ==> #[trigger] items@[k]@ == item_model(base_url@, folder_name@, names[k], today as int, k),
        decreases audio@.len() - i,
    {
        let file = audio[i].as_str();
        let day = today - i as i64;
        let item = FeedItem {
            title: spaces_for_underscores(file),
            url: asset_url_exec(base_url, folder_name, file),
            mime_type: owned("audio/mpeg"),
            length: file.unicode_len(),
            pub_day: day,
            pub_date: rfc2822_at(day * SECONDS_PER_DAY),
        };
        items.push(item);
        i = i + 1;
    }
    let doc = FeedDocument {
        title: owned(title),
        image_url: asset_url_exec(base_url, folder_name, image),
        block: owned("Yes"),
        items,
    };
    assert(doc@.items =~= feed_model(title@, folder_name@, base_url@, image@, names, today as int).items);
    doc
}

/// The feed text for a classified folder at the Unix time `now_secs`, or
/// `DateOutOfRange` when some episode's date has no RFC 2822 form.
pub fn render_feed(
    title: &str,
    folder_name: &str,
    base_url: &str,
    contents: &FolderContents,
    now_secs: i64,
) -> (r: Result<String, FeedError>)
    ensures
        ({
            let today = now_secs as int / SECONDS_PER_DAY as int;
            let in_range = FIRST_DAY <= today <= LAST_DAY && FIRST_DAY + contents.audio@.len() <= today + 1;
            match r {
                Ok(s) => in_range && s@ == rss_text(feed_model(title@, folder_name@, base_url@, contents.image@,
                    Seq::new(contents.audio@.len(), |i: int| contents.audio@[i]@), today)),
                Err(e) => !in_range && e == FeedError::DateOutOfRange,
            }
        }),
{
    let today = day_of_timestamp(now_secs);
    assert(today as int == now_secs as int / 86400) by (nonlinear_arith)
        requires today * 86400 <= now_secs < (today + 1) * 86400;
    if today > LAST_DAY || today < FIRST_DAY || contents.audio.len() > ((today - FIRST_DAY + 1) as usize) {
        return Err(FeedError::DateOutOfRange);
    }
    let doc = build_feed(title, folder_name, base_url, contents.image.as_str(), &contents.audio, today);
    Ok(rss_channel_text(&doc))
}

/// The channel title: the stored title when the metadata lookup found one,
/// else empty.
pub fn title_or_empty(found: Option<String>) -> (r: String)
    ensures
        r@ == match found {
            Some(t) => t@,
            None => Seq::<char>::empty(),
        },
{
    match found {
        Some(t) => t,
        None => String::new(),
    }
}

/// Episodes are dated one day apart, newest first: the first audio file is
/// published on `today` and each later one a day before the one ahead of it.
pub proof fn episodes_one_day_apart(
    title: Seq<char>,
    folder: Seq<char>,
    base: Seq<char>,
    image: Seq<char>,
    audio: Seq<Seq<char>>,
    today: int,
    i: int,
)
    requires
        0 <= i,
        i + 1 < audio.len(),
    ensures
        feed_model(title, folder, base, image, audio, today).items[0].pub_day == today,
        feed_model(title, folder, base, image, audio, today).items[i + 1].pub_day
            == feed_model(title, folder, base, image, audio, today).items[i].pub_day - 1,
{
}

/// Every audio file becomes one episode, in order, whose enclosure URL is the
/// file's asset URL under the book folder.
pub proof fn one_episode_per_audio_file(
    title: Seq<char>,
    folder: Seq<char>,
    base: Seq<char>,
    image: Seq<char>,
    audio: Seq<Seq<char>>,
    today: int,
)
    ensures
        feed_model(title, folder, base, image, audio, today).items.len() == audio.len(),
        forall|i: int| 0 <= i < audio.len() ==>
            #[trigger] feed_model(title, folder, base, image, audio, today).items[i].url
                == base + "/libation-files/"@ + folder + "/"@ + audio[i],
{
}

} // verus!

//! What the map is made of: places, trips, photographs, messages, and the store that holds them.

use vstd::prelude::*;
use crate::json::{copy_vec, views, Double, Duplicate, Json, JsonV};
use crate::text::{copy_opt, opt_text, same};

verus! {

/// One visit to a place.
#[derive(Debug, PartialEq, Eq)]
pub struct Visit {
    pub id: String,
    /// The day, or empty.
    pub date: String,
    pub note: String,
    pub rating: u8,
}

/// What a [`Visit`] means.
#[verifier::ext_equal]
pub struct VisitV {
    pub id: Seq<char>,
    pub date: Seq<char>,
    pub note: Seq<char>,
    pub rating: u8,
}

impl View for Visit {
    type V = VisitV;

    open spec fn view(&self) -> VisitV {
        VisitV {
            id: self.id@,
            date: self.date@,
            note: self.note@,
            rating: self.rating,
        }
    }
}

impl Duplicate for Visit {
    fn copy(&self) -> (r: Self) {
        Visit {
            id: self.id.clone(),
            date: self.date.clone(),
            note: self.note.clone(),
            rating: self.rating,
        }
    }
}

/// One line of the checklist of a trip.
#[derive(Debug, PartialEq, Eq)]
pub struct ChecklistItem {
    pub id: String,
    pub text: String,
    pub done: bool,
}

/// What a [`ChecklistItem`] means.
#[verifier::ext_equal]
pub struct ChecklistItemV {
    pub id: Seq<char>,
    pub text: Seq<char>,
    pub done: bool,
}

impl View for ChecklistItem {
    type V = ChecklistItemV;

    open spec fn view(&self) -> ChecklistItemV {
        ChecklistItemV {
            id: self.id@,
            text: self.text@,
            done: self.done,
        }
    }
}

impl Duplicate for ChecklistItem {
    fn copy(&self) -> (r: Self) {
        ChecklistItem {
            id: self.id.clone(),
            text: self.text.clone(),
            done: self.done,
        }
    }
}

/// A message in the guest book; everyone can read it, the owner can delete it.
#[derive(Debug, PartialEq, Eq)]
pub struct GuestMessage {
    pub id: String,
    pub name: String,
    pub text: String,
    /// Unix time in seconds.
    pub ts: u64,
    /// The place it is about; none for the site as a whole.
    pub place_id: Option<String>,
}

/// What a [`GuestMessage`] means.
#[verifier::ext_equal]
pub struct GuestMessageV {
    pub id: Seq<char>,
    pub name: Seq<char>,
    pub text: Seq<char>,
    pub ts: u64,
    pub place_id: Option<Seq<char>>,
}

impl View for GuestMessage {
    type V = GuestMessageV;

    open spec fn view(&self) -> GuestMessageV {
        GuestMessageV {
            id: self.id@,
            name: self.name@,
            text: self.text@,
            ts: self.ts,
            place_id: opt_text(self.place_id),
        }
    }
}

impl Duplicate for GuestMessage {
    fn copy(&self) -> (r: Self) {
        GuestMessage {
            id: self.id.clone(),
            name: self.name.clone(),
            text: self.text.clone(),
            ts: self.ts,
            place_id: copy_opt(&self.place_id),
        }
    }
}

/// A photograph without a position, waiting to be put on the map by hand.
#[derive(Debug, PartialEq, Eq)]
pub struct UnplacedPhoto {
    pub id: String,
    pub url: String,
    pub thumb: String,
    /// The name of the uploaded file.
    pub name: String,
}

/// What a [`UnplacedPhoto`] means.
#[verifier::ext_equal]
pub struct UnplacedPhotoV {
    pub id: Seq<char>,
    pub url: Seq<char>,
    pub thumb: Seq<char>,
    pub name: Seq<char>,
}

impl View for UnplacedPhoto {
    type V = UnplacedPhotoV;

    open spec fn view(&self) -> UnplacedPhotoV {
        UnplacedPhotoV {
            id: self.id@,
            url: self.url@,
            thumb: self.thumb@,
            name: self.name@,
        }
    }
}

impl Duplicate for UnplacedPhoto {
    fn copy(&self) -> (r: Self) {
        UnplacedPhoto {
            id: self.id.clone(),
            url: self.url.clone(),
            thumb: self.thumb.clone(),
            name: self.name.clone(),
        }
    }
}

/// A photograph of a place.
#[derive(Debug, PartialEq, Eq)]
pub struct Photo {
    pub id: String,
    pub url: String,
    pub thumb: String,
    pub date: Option<String>,
}

/// What a [`Photo`] means.
#[verifier::ext_equal]
pub struct PhotoV {
    pub id: Seq<char>,
    pub url: Seq<char>,
    pub thumb: Seq<char>,
    pub date: Option<Seq<char>>,
}

impl View for Photo {
    type V = PhotoV;

    open spec fn view(&self) -> PhotoV {
        PhotoV {
            id: self.id@,
            url: self.url@,
            thumb: self.thumb@,
            date: opt_text(self.date),
        }
    }
}

impl Duplicate for Photo {
    fn copy(&self) -> (r: Self) {
        Photo {
            id: self.id.clone(),
            url: self.url.clone(),
            thumb: self.thumb.clone(),
            date: copy_opt(&self.date),
        }
    }
}

/// A place on the map.
#[derive(Debug, PartialEq, Eq)]
pub struct Place {
    pub id: String,
    pub lng: Double,
    pub lat: Double,
    pub name: String,
    pub short: String,
    pub city: String,
    pub country: String,
    /// The emoji of its marker.
    pub em: String,
    pub date: Option<String>,
    pub rating: u8,
    pub tags: Vec<String>,
    pub feel: String,
    pub photos: Vec<Photo>,
    pub cover: Option<String>,
    /// `visited` or `planned`.
    pub status: String,
    pub trip_id: Option<String>,
    pub visits: Vec<Visit>,
    /// One of the categories, or empty.
    pub category: String,
    /// The main colour of its cover photograph.
    pub color: Option<String>,
    /// Travel notes, in a shape of the front end's own; kept as they come.
    pub guide: Json,
}

/// What a [`Place`] means.
#[verifier::ext_equal]
pub struct PlaceV {
    pub id: Seq<char>,
    pub lng: Double,
    pub lat: Double,
    pub name: Seq<char>,
    pub short: Seq<char>,
    pub city: Seq<char>,
    pub country: Seq<char>,
    pub em: Seq<char>,
    pub date: Option<Seq<char>>,
    pub rating: u8,
    pub tags: Seq<Seq<char>>,
    pub feel: Seq<char>,
    pub photos: Seq<PhotoV>,
    pub cover: Option<Seq<char>>,
    pub status: Seq<char>,
    pub trip_id: Option<Seq<char>>,
    pub visits: Seq<VisitV>,
    pub category: Seq<char>,
    pub color: Option<Seq<char>>,
    pub guide: JsonV,
}

impl View for Place {
    type V = PlaceV;

    open spec fn view(&self) -> PlaceV {
        PlaceV {
            id: self.id@,
            lng: self.lng,
            lat: self.lat,
            name: self.name@,
            short: self.short@,
            city: self.city@,
            country: self.country@,
            em: self.em@,
            date: opt_text(self.date),
            rating: self.rating,
            tags: views(self.tags@),
            feel: self.feel@,
            photos: views(self.photos@),
            cover: opt_text(self.cover),
            status: self.status@,
            trip_id: opt_text(self.trip_id),
            visits: views(self.visits@),
            category: self.category@,
            color: opt_text(self.color),
            guide: self.guide@,
        }
    }
}

impl Duplicate for Place {
    fn copy(&self) -> (r: Self) {
        Place {
            id: self.id.clone(),
            lng: self.lng,
            lat: self.lat,
            name: self.name.clone(),
            short: self.short.clone(),
            city: self.city.clone(),
            country: self.country.clone(),
            em: self.em.clone(),
            date: copy_opt(&self.date),
            rating: self.rating,
            tags: copy_vec(&self.tags),
            feel: self.feel.clone(),
            photos: copy_vec(&self.photos),
            cover: copy_opt(&self.cover),
            status: self.status.clone(),
            trip_id: copy_opt(&self.trip_id),
            visits: copy_vec(&self.visits),
            category: self.category.clone(),
            color: copy_opt(&self.color),
            guide: self.guide.copy(),
        }
    }
}

/// A trip: a group of places.
#[derive(Debug, PartialEq, Eq)]
pub struct Trip {
    pub id: String,
    pub name: String,
    pub em: String,
    pub color: String,
    pub start_date: String,
    pub end_date: String,
    pub note: String,
    /// `done` or `planned`.
    pub status: String,
    pub checklist: Vec<ChecklistItem>,
    /// Travel notes, in a shape of the front end's own; kept as they come.
    pub guide: Json,
}

/// What a [`Trip`] means.
#[verifier::ext_equal]
pub struct TripV {
    pub id: Seq<char>,
    pub name: Seq<char>,
    pub em: Seq<char>,
    pub color: Seq<char>,
    pub start_date: Seq<char>,
    pub end_date: Seq<char>,
    pub note: Seq<char>,
    pub status: Seq<char>,
    pub checklist: Seq<ChecklistItemV>,
    pub guide: JsonV,
}

impl View for Trip {
    type V = TripV;

    open spec fn view(&self) -> TripV {
        TripV {
            id: self.id@,
            name: self.name@,
            em: self.em@,
            color: self.color@,
            start_date: self.start_date@,
            end_date: self.end_date@,
            note: self.note@,
            status: self.status@,
            checklist: views(self.checklist@),
            guide: self.guide@,
        }
    }
}

impl Duplicate for Trip {
    fn copy(&self) -> (r: Self) {
        Trip {
            id: self.id.clone(),
            name: self.name.clone(),
            em: self.em.clone(),
            color: self.color.clone(),
            start_date: self.start_date.clone(),
            end_date: self.end_date.clone(),
            note: self.note.clone(),
            status: self.status.clone(),
            checklist: copy_vec(&self.checklist),
            guide: self.guide.copy(),
        }
    }
}

/// A city label on the map.
#[derive(Debug, PartialEq, Eq)]
pub struct City {
    pub nm: String,
    pub lng: Double,
    pub lat: Double,
}

/// What a [`City`] means.
#[verifier::ext_equal]
pub struct CityV {
    pub nm: Seq<char>,
    pub lng: Double,
    pub lat: Double,
}

impl View for City {
    type V = CityV;

    open spec fn view(&self) -> CityV {
        CityV {
            nm: self.nm@,
            lng: self.lng,
            lat: self.lat,
        }
    }
}

impl Duplicate for City {
    fn copy(&self) -> (r: Self) {
        City {
            nm: self.nm.clone(),
            lng: self.lng,
            lat: self.lat,
        }
    }
}

/// Whose map this is.
#[derive(Debug, PartialEq, Eq)]
pub struct Profile {
    pub name: String,
    pub bio: String,
    pub about: String,
}

/// What a [`Profile`] means.
#[verifier::ext_equal]
pub struct ProfileV {
    pub name: Seq<char>,
    pub bio: Seq<char>,
    pub about: Seq<char>,
}

impl View for Profile {
    type V = ProfileV;

    open spec fn view(&self) -> ProfileV {
        ProfileV {
            name: self.name@,
            bio: self.bio@,
            about: self.about@,
        }
    }
}

impl Duplicate for Profile {
    fn copy(&self) -> (r: Self) {
        Profile {
            name: self.name.clone(),
            bio: self.bio.clone(),
            about: self.about.clone(),
        }
    }
}

/// A session: the hash of its token, never the token itself.
#[derive(Debug, PartialEq, Eq)]
pub struct SessionEntry {
    /// SHA-256 of the token, in hexadecimal.
    pub hash: String,
    /// Unix time in seconds at which it ends.
    pub exp: u64,
}

/// What a [`SessionEntry`] means.
#[verifier::ext_equal]
pub struct SessionEntryV {
    pub hash: Seq<char>,
    pub exp: u64,
}

impl View for SessionEntry {
    type V = SessionEntryV;

    open spec fn view(&self) -> SessionEntryV {
        SessionEntryV {
            hash: self.hash@,
            exp: self.exp,
        }
    }
}

impl Duplicate for SessionEntry {
    fn copy(&self) -> (r: Self) {
        SessionEntry {
            hash: self.hash.clone(),
            exp: self.exp,
        }
    }
}

/// How many hearts a place has.
#[derive(Debug, PartialEq, Eq)]
pub struct LikeCount {
    pub place_id: String,
    pub count: u32,
}

/// What a [`LikeCount`] means.
#[verifier::ext_equal]
pub struct LikeCountV {
    pub place_id: Seq<char>,
    pub count: u32,
}

impl View for LikeCount {
    type V = LikeCountV;

    open spec fn view(&self) -> LikeCountV {
        LikeCountV {
            place_id: self.place_id@,
            count: self.count,
        }
    }
}

impl Duplicate for LikeCount {
    fn copy(&self) -> (r: Self) {
        LikeCount {
            place_id: self.place_id.clone(),
            count: self.count,
        }
    }
}

/// Everything that is kept on disk.
#[derive(Debug, PartialEq, Eq)]
pub struct Store {
    pub version: u32,
    pub places: Vec<Place>,
    pub trips: Vec<Trip>,
    pub cities: Vec<City>,
    pub unplaced: Vec<UnplacedPhoto>,
    pub profile: Profile,
    /// Of two entries for one place the first counts.
    pub likes: Vec<LikeCount>,
    pub messages: Vec<GuestMessage>,
    /// Visits to the site, the owner's own left out.
    pub views: u64,
}

/// What a [`Store`] means.
#[verifier::ext_equal]
pub struct StoreV {
    pub version: u32,
    pub places: Seq<PlaceV>,
    pub trips: Seq<TripV>,
    pub cities: Seq<CityV>,
    pub unplaced: Seq<UnplacedPhotoV>,
    pub profile: ProfileV,
    pub likes: Seq<LikeCountV>,
    pub messages: Seq<GuestMessageV>,
    pub views: u64,
}

impl View for Store {
    type V = StoreV;

    open spec fn view(&self) -> StoreV {
        StoreV {
            version: self.version,
            places: views(self.places@),
            trips: views(self.trips@),
            cities: views(self.cities@),
            unplaced: views(self.unplaced@),
            profile: self.profile@,
            likes: views(self.likes@),
            messages: views(self.messages@),
            views: self.views,
        }
    }
}

impl Duplicate for Store {
    fn copy(&self) -> (r: Self) {
        Store {
            version: self.version,
            places: copy_vec(&self.places),
            trips: copy_vec(&self.trips),
            cities: copy_vec(&self.cities),
            unplaced: copy_vec(&self.unplaced),
            profile: self.profile.copy(),
            likes: copy_vec(&self.likes),
            messages: copy_vec(&self.messages),
            views: self.views,
        }
    }
}

/// The status of a place that does not say.
pub fn default_place_status() -> (r: String)
    ensures
        r@ == "visited"@,
{
    "visited".to_owned()
}

/// The status of a trip that does not say.
pub fn default_trip_status() -> (r: String)
    ensures
        r@ == "planned"@,
{
    "planned".to_owned()
}

/// The version of the format of the store.
pub fn default_version() -> (r: u32)
    ensures
        r == 4,
{
    4
}

/// The store of a site on which nothing has happened yet.
pub open spec fn empty_store() -> StoreV {
    StoreV {
        version: 4,
        places: Seq::empty(),
        trips: Seq::empty(),
        cities: Seq::empty(),
        unplaced: Seq::empty(),
        profile: ProfileV { name: Seq::empty(), bio: Seq::empty(), about: Seq::empty() },
        likes: Seq::empty(),
        messages: Seq::empty(),
        views: 0,
    }
}

impl Default for Profile {
    fn default() -> (r: Self)
        ensures
            r@ == empty_store().profile,
    {
        Profile { name: String::new(), bio: String::new(), about: String::new() }
    }
}

impl Default for Store {
    fn default() -> (r: Self)
        ensures
            r@ == empty_store(),
    {
        let r = Store {
            version: default_version(),
            places: Vec::new(),
            trips: Vec::new(),
            cities: Vec::new(),
            unplaced: Vec::new(),
            profile: Profile::default(),
            likes: Vec::new(),
            messages: Vec::new(),
            views: 0,
        };
        assert(r@ =~= empty_store());
        r
    }
}

/// The categories of a place; the empty one means that it has none.
pub open spec fn category_ok(c: Seq<char>) -> bool {
    ||| c == "景点"@
    ||| c == "美食"@
    ||| c == "自然"@
    ||| c == "城市"@
    ||| c == "住宿"@
    ||| c == "购物"@
    ||| c == "其他"@
    ||| c == ""@
}

/// Whether a text is one of the categories.
pub fn is_valid_category(c: &str) -> (r: bool)
    ensures
        r == category_ok(c@),
{
    same(c, "景点") || same(c, "美食") || same(c, "自然") || same(c, "城市") || same(c, "住宿")
        || same(c, "购物") || same(c, "其他") || same(c, "")
}

/// The first position at or after `i` at which `id` stands among the given ones.
pub open spec fn index_from(ids: Seq<Seq<char>>, id: Seq<char>, i: int) -> Option<int>
    decreases ids.len() - i,
{
    if i < 0 || i >= ids.len() {
        None
    } else if ids[i] == id {
        Some(i)
    } else {
        index_from(ids, id, i + 1)
    }
}

/// The first position at which `id` stands among the given ones.
pub open spec fn index_of(ids: Seq<Seq<char>>, id: Seq<char>) -> Option<int> {
    index_from(ids, id, 0)
}

/// The first position is one at which the id stands, with none before it; and there is one
/// wherever the id occurs.
pub proof fn lemma_index_of(ids: Seq<Seq<char>>, id: Seq<char>)
    ensures
        match index_of(ids, id) {
            Some(k) => 0 <= k < ids.len() && ids[k] == id && forall|j: int|
                0 <= j < k ==> ids[j] != id,
            None => !ids.contains(id),
        },
{
    lemma_index_from(ids, id, 0);
}

proof fn lemma_index_from(ids: Seq<Seq<char>>, id: Seq<char>, i: int)
    requires
        0 <= i,
    ensures
        match index_from(ids, id, i) {
            Some(k) => i <= k < ids.len() && ids[k] == id && forall|j: int|
                i <= j < k ==> ids[j] != id,
            None => forall|j: int| i <= j < ids.len() ==> ids[j] != id,
        },
    decreases ids.len() - i,
{
    if i < ids.len() && ids[i] != id {
        lemma_index_from(ids, id, i + 1);
    }
}

/// An exact position, or none.
pub open spec fn opt_index(o: Option<usize>) -> Option<int> {
    match o {
        Some(i) => Some(i as int),
        None => None,
    }
}

/// Things that can be looked for by a text: `K` says by which.
pub trait Keyed<K> {
    /// The text.
    spec fn key(&self) -> Seq<char>;

    /// The text.
    fn key_text(&self) -> (r: &str)
        ensures
            r@ == self.key(),
    ;
}

/// Looking for something by its id.
pub struct ById;

/// Looking for something by its name.
pub struct ByName;

/// The texts by which things are looked for.
pub open spec fn keys<K, T: Keyed<K>>(v: Seq<T>) -> Seq<Seq<char>> {
    Seq::new(v.len(), |i: int| v[i].key())
}

/// The position of the first thing with the given text.
pub fn find_key<K, T: Keyed<K>>(v: &Vec<T>, key: &str) -> (r: Option<usize>)
    ensures
        opt_index(r) == index_of(keys::<K, T>(v@), key@),
        r matches Some(i) ==> i < v@.len() && keys::<K, T>(v@)[i as int] == key@,
{
    let ghost all = keys::<K, T>(v@);
    let mut i: usize = 0;
    while i < v.len()
        invariant
            i <= v.len(),
            all == keys::<K, T>(v@),
            index_of(all, key@) == index_from(all, key@, i as int),
        decreases v.len() - i,
    {
        assert(all[i as int] == v@[i as int].key());
        if same(v[i].key_text(), key) {
            return Some(i);
        }
        i = i + 1;
    }
    None
}

impl Keyed<ById> for Place {
    open spec fn key(&self) -> Seq<char> {
        self.id@
    }

    fn key_text(&self) -> (r: &str) {
        self.id.as_str()
    }
}

/// The ids of a sequence of places.
pub open spec fn place_ids(s: Seq<PlaceV>) -> Seq<Seq<char>> {
    Seq::new(s.len(), |i: int| s[i].id)
}

/// The position of the first place with the given id.
pub fn find_place(v: &Vec<Place>, id: &str) -> (r: Option<usize>)
    ensures
        opt_index(r) == index_of(place_ids(views(v@)), id@),
        r matches Some(i) ==> i < v@.len() && v@[i as int]@.id == id@,
{
    assert(keys::<ById, Place>(v@) =~= place_ids(views(v@)));
    find_key::<ById, Place>(v, id)
}

impl Keyed<ById> for Trip {
    open spec fn key(&self) -> Seq<char> {
        self.id@
    }

    fn key_text(&self) -> (r: &str) {
        self.id.as_str()
    }
}

/// The ids of a sequence of trips.
pub open spec fn trip_ids(s: Seq<TripV>) -> Seq<Seq<char>> {
    Seq::new(s.len(), |i: int| s[i].id)
}

/// The position of the first trip with the given id.
pub fn find_trip(v: &Vec<Trip>, id: &str) -> (r: Option<usize>)
    ensures
        opt_index(r) == index_of(trip_ids(views(v@)), id@),
        r matches Some(i) ==> i < v@.len() && v@[i as int]@.id == id@,
{
    assert(keys::<ById, Trip>(v@) =~= trip_ids(views(v@)));
    find_key::<ById, Trip>(v, id)
}

impl Keyed<ById> for UnplacedPhoto {
    open spec fn key(&self) -> Seq<char> {
        self.id@
    }

    fn key_text(&self) -> (r: &str) {
        self.id.as_str()
    }
}

/// The ids of a sequence of photographs.
pub open spec fn unplaced_ids(s: Seq<UnplacedPhotoV>) -> Seq<Seq<char>> {
    Seq::new(s.len(), |i: int| s[i].id)
}

/// The position of the first photograph with the given id.
pub fn find_unplaced(v: &Vec<UnplacedPhoto>, id: &str) -> (r: Option<usize>)
    ensures
        opt_index(r) == index_of(unplaced_ids(views(v@)), id@),
        r matches Some(i) ==> i < v@.len() && v@[i as int]@.id == id@,
{
    assert(keys::<ById, UnplacedPhoto>(v@) =~= unplaced_ids(views(v@)));
    find_key::<ById, UnplacedPhoto>(v, id)
}

impl Keyed<ById> for Photo {
    open spec fn key(&self) -> Seq<char> {
        self.id@
    }

    fn key_text(&self) -> (r: &str) {
        self.id.as_str()
    }
}

/// The ids of a sequence of photographs.
pub open spec fn photo_ids(s: Seq<PhotoV>) -> Seq<Seq<char>> {
    Seq::new(s.len(), |i: int| s[i].id)
}

/// The position of the first photograph with the given id.
pub fn find_photo(v: &Vec<Photo>, id: &str) -> (r: Option<usize>)
    ensures
        opt_index(r) == index_of(photo_ids(views(v@)), id@),
        r matches Some(i) ==> i < v@.len() && v@[i as int]@.id == id@,
{
    assert(keys::<ById, Photo>(v@) =~= photo_ids(views(v@)));
    find_key::<ById, Photo>(v, id)
}

/// What a visit means is told by its fields, each by the one of its name.
pub proof fn law_visit_means_its_fields(x: Visit)
    ensures
        x@.id == x.id@,
        x@.date == x.date@,
        x@.note == x.note@,
        x@.rating == x.rating,
{
}

/// What a line of a checklist means is told by its fields, each by the one of its name.
pub proof fn law_checklist_item_means_its_fields(x: ChecklistItem)
    ensures
        x@.id == x.id@,
        x@.text == x.text@,
        x@.done == x.done,
{
}

/// What a message means is told by its fields, each by the one of its name.
pub proof fn law_guest_message_means_its_fields(x: GuestMessage)
    ensures
        x@.id == x.id@,
        x@.name == x.name@,
        x@.text == x.text@,
        x@.ts == x.ts,
        x@.place_id == opt_text(x.place_id),
{
}

/// What a photograph without a place means is told by its fields, each by the one of its name.
pub proof fn law_unplaced_photo_means_its_fields(x: UnplacedPhoto)
    ensures
        x@.id == x.id@,
        x@.url == x.url@,
        x@.thumb == x.thumb@,
        x@.name == x.name@,
{
}

/// What a photograph means is told by its fields, each by the one of its name.
pub proof fn law_photo_means_its_fields(x: Photo)
    ensures
        x@.id == x.id@,
        x@.url == x.url@,
        x@.thumb == x.thumb@,
        x@.date == opt_text(x.date),
{
}

/// What a place means is told by its fields, each by the one of its name.
pub proof fn law_place_means_its_fields(x: Place)
    ensures
        x@.id == x.id@,
        x@.lng == x.lng,
        x@.lat == x.lat,
        x@.name == x.name@,
        x@.short == x.short@,
        x@.city == x.city@,
        x@.country == x.country@,
        x@.em == x.em@,
        x@.date == opt_text(x.date),
        x@.rating == x.rating,
        x@.tags == views(x.tags@),
        x@.feel == x.feel@,
        x@.photos == views(x.photos@),
        x@.cover == opt_text(x.cover),
        x@.status == x.status@,
        x@.trip_id == opt_text(x.trip_id),
        x@.visits == views(x.visits@),
        x@.category == x.category@,
        x@.color == opt_text(x.color),
        x@.guide == x.guide@,
{
}

/// What a trip means is told by its fields, each by the one of its name.
pub proof fn law_trip_means_its_fields(x: Trip)
    ensures
        x@.id == x.id@,
        x@.name == x.name@,
        x@.em == x.em@,
        x@.color == x.color@,
        x@.start_date == x.start_date@,
        x@.end_date == x.end_date@,
        x@.note == x.note@,
        x@.status == x.status@,
        x@.checklist == views(x.checklist@),
        x@.guide == x.guide@,
{
}

/// What a city means is told by its fields, each by the one of its name.
pub proof fn law_city_means_its_fields(x: City)
    ensures
        x@.nm == x.nm@,
        x@.lng == x.lng,
        x@.lat == x.lat,
{
}

/// What a profile means is told by its fields, each by the one of its name.
pub proof fn law_profile_means_its_fields(x: Profile)
    ensures
        x@.name == x.name@,
        x@.bio == x.bio@,
        x@.about == x.about@,
{
}

/// What a session means is told by its fields, each by the one of its name.
pub proof fn law_session_entry_means_its_fields(x: SessionEntry)
    ensures
        x@.hash == x.hash@,
        x@.exp == x.exp,
{
}

/// What a count of hearts means is told by its fields, each by the one of its name.
pub proof fn law_like_count_means_its_fields(x: LikeCount)
    ensures
        x@.place_id == x.place_id@,
        x@.count == x.count,
{
}

/// What a store means is told by its fields, each by the one of its name.
pub proof fn law_store_means_its_fields(x: Store)
    ensures
        x@.version == x.version,
        x@.places == views(x.places@),
        x@.trips == views(x.trips@),
        x@.cities == views(x.cities@),
        x@.unplaced == views(x.unplaced@),
        x@.profile == x.profile@,
        x@.likes == views(x.likes@),
        x@.messages == views(x.messages@),
        x@.views == x.views,
{
}

/// The seven categories, and none at all.
pub proof fn law_the_categories(c: Seq<char>)
    ensures
        category_ok("景点"@) && category_ok("美食"@) && category_ok("自然"@)
            && category_ok("城市"@),
        category_ok("住宿"@) && category_ok("购物"@) && category_ok("其他"@) && category_ok(""@),
        category_ok(c) && c.len() > 0 ==> c.len() == 2,
{
    reveal_strlit("景点");
    reveal_strlit("美食");
    reveal_strlit("自然");
    reveal_strlit("城市");
    reveal_strlit("住宿");
    reveal_strlit("购物");
    reveal_strlit("其他");
    reveal_strlit("");
}

/// Things are found by their ids, each at its own position.
pub proof fn law_ids_are_those_of_the_things(
    places: Seq<PlaceV>,
    trips: Seq<TripV>,
    unplaced: Seq<UnplacedPhotoV>,
    photos: Seq<PhotoV>,
    i: int,
)
    ensures
        place_ids(places).len() == places.len() && trip_ids(trips).len() == trips.len(),
        unplaced_ids(unplaced).len() == unplaced.len() && photo_ids(photos).len() == photos.len(),
        0 <= i < places.len() ==> place_ids(places)[i] == places[i].id,
        0 <= i < trips.len() ==> trip_ids(trips)[i] == trips[i].id,
        0 <= i < unplaced.len() ==> unplaced_ids(unplaced)[i] == unplaced[i].id,
        0 <= i < photos.len() ==> photo_ids(photos)[i] == photos[i].id,
{
}

/// On a new site there is nothing yet, and it is of the fourth version.
pub proof fn law_a_new_site_is_empty()
    ensures
        ({
            let s = empty_store();
            &&& s.version == 4 && s.views == 0
            &&& s.places.len() == 0 && s.trips.len() == 0 && s.cities.len() == 0
            &&& s.unplaced.len() == 0 && s.likes.len() == 0 && s.messages.len() == 0
            &&& s.profile.name.len() == 0 && s.profile.bio.len() == 0 && s.profile.about.len() == 0
        }),
{
}

} // verus!

//! Where an uploaded photograph goes: to the place that was asked for, to a place near by, to a
//! new place in the trip of its region, or to those without a position.

use vstd::prelude::*;
use crate::json::{views, Double, Duplicate, Json, JsonV};
use crate::model::{
    find_key, find_place, index_of, keys, lemma_index_of, opt_index, place_ids, unplaced_ids,
    ByName, Keyed, Photo, PhotoV, Place, PlaceV, Store, StoreV, Trip, TripV, UnplacedPhoto,
    UnplacedPhotoV,
};
use crate::names::{group_name, trip_group_name, AddressNames, AddressNamesV};
use crate::text::{copy_opt, join2, join3, opt_text, same, trim, trimmed};
use crate::tiff::{from_utf8_lossy, utf8_lossy};
use crate::unplaced::after_assign;

verus! {

/// The place that a form's text asks for: none if it is blank.
pub open spec fn asked_place(s: Seq<char>) -> Option<Seq<char>> {
    if trimmed(s).len() == 0 {
        None
    } else {
        Some(trimmed(s))
    }
}

/// The place that a form's text asks for.
pub fn target_of(s: &str) -> (r: Option<String>)
    ensures
        opt_text(r) == asked_place(s@),
{
    let t = trim(s);
    if t.as_str().is_empty() {
        None
    } else {
        Some(t)
    }
}

/// The place that photographs go to after a field of the form: a field named `place_id` that is
/// not blank changes it, and so do no others.
pub open spec fn target_after(
    target: Option<Seq<char>>,
    field: Seq<char>,
    data: Seq<u8>,
) -> Option<Seq<char>> {
    if field == "place_id"@ && asked_place(utf8_lossy(data)) is Some {
        asked_place(utf8_lossy(data))
    } else {
        target
    }
}

/// Takes in one field of the form. Whether it holds a photograph: every field does that is not
/// empty and not named `place_id`.
pub fn take_field(target: &mut Option<String>, field: &str, data: &[u8]) -> (r: bool)
    ensures
        r == (field@ != "place_id"@ && data@.len() > 0),
        opt_text(*final(target)) == target_after(opt_text(*old(target)), field@, data@),
{
    if same(field, "place_id") {
        let s = from_utf8_lossy(data);
        match target_of(s.as_str()) {
            Some(t) => {
                *target = Some(t);
            },
            None => {},
        }
        return false;
    }
    data.len() > 0
}

/// The record of a photograph with the given id.
pub open spec fn photo_of(id: Seq<char>, date: Option<Seq<char>>) -> PhotoV {
    PhotoV { id, url: "/photos/"@ + id + ".jpg"@, thumb: "/photos/thumb/"@ + id + ".jpg"@, date }
}

/// The record of a photograph with the given id.
pub fn new_photo(id: &str, date: Option<String>) -> (r: Photo)
    ensures
        r@ == photo_of(id@, opt_text(date)),
{
    Photo {
        id: id.to_owned(),
        url: join3("/photos/", id, ".jpg"),
        thumb: join3("/photos/thumb/", id, ".jpg"),
        date,
    }
}

/// The first of two optional texts that there is.
pub open spec fn either(a: Option<Seq<char>>, b: Option<Seq<char>>) -> Option<Seq<char>> {
    match a {
        Some(s) => Some(s),
        None => b,
    }
}

/// A place with one more photograph, from which it has its date and colour if it had none.
pub open spec fn with_shot(p: PlaceV, ph: PhotoV, color: Option<Seq<char>>) -> PlaceV {
    PlaceV {
        photos: p.photos.push(ph),
        date: either(p.date, ph.date),
        color: either(p.color, color),
        ..p
    }
}

/// Adds a photograph to the `i`-th place.
fn add_shot(store: &mut Store, i: usize, photo: &Photo, color: &Option<String>)
    requires
        i < old(store)@.places.len(),
    ensures
        final(store)@ == (StoreV {
            places: old(store)@.places.update(
                i as int,
                with_shot(old(store)@.places[i as int], photo@, opt_text(*color)),
            ),
            ..old(store)@
        }),
{
    let ghost before = store@;
    assert(before.places[i as int] == store.places@[i as int]@);
    let mut p = store.places[i].copy();
    let ghost whole = p@;
    p.photos.push(photo.copy());
    assert(views(p.photos@) =~= whole.photos.push(photo@));
    if p.date.is_none() {
        p.date = copy_opt(&photo.date);
    }
    if p.color.is_none() {
        p.color = copy_opt(color);
    }
    assert(p@ =~= with_shot(whole, photo@, opt_text(*color)));
    let ghost meaning = p@;
    store.places.set(i, p);
    assert(views(store.places@) =~= before.places.update(i as int, meaning));
    assert(store@ =~= StoreV { places: before.places.update(i as int, meaning), ..before });
}

/// The store after a photograph was added to the place that was asked for; none if there is no
/// such place.
pub open spec fn after_target(
    s: StoreV,
    target: Option<Seq<char>>,
    ph: PhotoV,
    color: Option<Seq<char>>,
) -> Option<(StoreV, PlaceV)> {
    match target {
        None => None,
        Some(id) => match index_of(place_ids(s.places), id) {
            None => None,
            Some(i) => {
                let p = with_shot(s.places[i], ph, color);
                Some((StoreV { places: s.places.update(i, p), ..s }, p))
            },
        },
    }
}

/// Adds a photograph to the place that was asked for. The answer is that place; none if none was
/// asked for or it does not exist, and then the store is as before.
pub fn file_under_target(
    store: &mut Store,
    target: &Option<String>,
    photo: &Photo,
    color: &Option<String>,
) -> (r: Option<Place>)
    ensures
        match r {
            Some(p) => after_target(old(store)@, opt_text(*target), photo@, opt_text(*color))
                == Some((final(store)@, p@)),
            None => after_target(old(store)@, opt_text(*target), photo@, opt_text(*color)) is None
                && final(store)@ == old(store)@,
        },
{
    let id: &String = match target {
        Some(id) => id,
        None => return None,
    };
    let i: usize = match find_place(&store.places, id.as_str()) {
        Some(i) => i,
        None => return None,
    };
    add_shot(store, i, photo, color);
    assert(store@.places.len() == store.places@.len());
    assert(store@.places[i as int] == store.places@[i as int]@);
    Some(store.places[i].copy())
}

/// The store after a photograph without a position was put aside.
pub open spec fn after_aside(s: StoreV, ph: PhotoV, file_name: Seq<char>) -> StoreV {
    StoreV {
        unplaced: s.unplaced.push(
            UnplacedPhotoV { id: ph.id, url: ph.url, thumb: ph.thumb, name: file_name },
        ),
        ..s
    }
}

/// Puts a photograph without a position aside, to be placed by hand. The answer is its id there.
pub fn file_aside(store: &mut Store, photo: &Photo, file_name: &str) -> (r: String)
    ensures
        final(store)@ == after_aside(old(store)@, photo@, file_name@),
        r@ == photo@.id,
{
    let ghost before = store@;
    let u = UnplacedPhoto {
        id: photo.id.clone(),
        url: photo.url.clone(),
        thumb: photo.thumb.clone(),
        name: file_name.to_owned(),
    };
    let ghost meaning = u@;
    store.unplaced.push(u);
    assert(views(store.unplaced@) =~= before.unplaced.push(meaning));
    assert(store@ =~= after_aside(before, photo@, file_name@));
    photo.id.clone()
}

/// What has become of a photograph whose place was looked for.
#[derive(Debug, PartialEq, Eq)]
pub enum Filed {
    /// It is in the place that was asked for, which is this one now.
    Under(Place),
    /// It was put aside, under this id.
    Aside(String),
    /// It is to be filed by its position, once the names of that are known; see
    /// [`file_by_position`].
    ByPosition,
}

/// Files a photograph as far as its names are not needed: in the place that was asked for, or
/// else, where it is not `located`, with those without a position.
pub fn file_photo(
    store: &mut Store,
    target: &Option<String>,
    photo: &Photo,
    color: &Option<String>,
    located: bool,
    file_name: &str,
) -> (r: Filed)
    ensures
        match after_target(old(store)@, opt_text(*target), photo@, opt_text(*color)) {
            Some((after, p)) => {
                &&& r matches Filed::Under(q)
                &&& q@ == p
                &&& final(store)@ == after
            },
            None => if located {
                r is ByPosition && final(store)@ == old(store)@
            } else {
                &&& r matches Filed::Aside(id)
                &&& id@ == photo@.id
                &&& final(store)@ == after_aside(old(store)@, photo@, file_name@)
            },
        },
{
    match file_under_target(store, target, photo, color) {
        Some(p) => Filed::Under(p),
        None => if located {
            Filed::ByPosition
        } else {
            Filed::Aside(file_aside(store, photo, file_name))
        },
    }
}

/// The colours that new trips get in turn.
pub open spec fn palette(n: int) -> Seq<char> {
    if n % 6 == 0 {
        "#E0684F"@
    } else if n % 6 == 1 {
        "#4F7DA3"@
    } else if n % 6 == 2 {
        "#3E6B57"@
    } else if n % 6 == 3 {
        "#C89B4B"@
    } else if n % 6 == 4 {
        "#8A6BA8"@
    } else {
        "#4FA39A"@
    }
}

/// The colour of the trip that is the `n`-th after the first.
pub fn trip_color(n: usize) -> (r: &'static str)
    ensures
        r@ == palette(n as int),
{
    match n % 6 {
        0 => "#E0684F",
        1 => "#4F7DA3",
        2 => "#3E6B57",
        3 => "#C89B4B",
        4 => "#8A6BA8",
        _ => "#4FA39A",
    }
}

/// The names of a sequence of trips.
pub open spec fn trip_names(s: Seq<TripV>) -> Seq<Seq<char>> {
    Seq::new(s.len(), |i: int| s[i].name)
}

impl Keyed<ByName> for Trip {
    open spec fn key(&self) -> Seq<char> {
        self.name@
    }

    fn key_text(&self) -> (r: &str) {
        self.name.as_str()
    }
}

/// The position of the first trip with the given name.
fn find_named(v: &Vec<Trip>, name: &str) -> (r: Option<usize>)
    ensures
        opt_index(r) == index_of(trip_names(views(v@)), name@),
        r matches Some(i) ==> i < v@.len(),
{
    assert(keys::<ByName, Trip>(v@) =~= trip_names(views(v@)));
    find_key::<ByName, Trip>(v, name)
}

/// A trip that was made for the photographs of a region.
pub open spec fn region_trip(id: Seq<char>, name: Seq<char>, color: Seq<char>) -> TripV {
    TripV {
        id,
        name,
        em: "🧳"@,
        color,
        start_date: Seq::empty(),
        end_date: Seq::empty(),
        note: Seq::empty(),
        status: "done"@,
        checklist: Seq::empty(),
        guide: JsonV::Null,
    }
}

/// The trips with one of the given name, and the id of that one: the first that there is, or else
/// a new one.
pub open spec fn with_group(trips: Seq<TripV>, name: Seq<char>, stamp: Seq<char>) -> (
    Seq<TripV>,
    Option<Seq<char>>,
) {
    if name.len() == 0 {
        (trips, None)
    } else {
        match index_of(trip_names(trips), name) {
            Some(i) => (trips, Some(trips[i].id)),
            None => (
                trips.push(region_trip("t_"@ + stamp, name, palette(trips.len() as int))),
                Some("t_"@ + stamp),
            ),
        }
    }
}

/// Finds or makes the trip of the given name. The answer is its id; none for the empty name.
fn join_group(store: &mut Store, name: &str, stamp: &str) -> (r: Option<String>)
    ensures
        (final(store)@.trips, opt_text(r)) == with_group(old(store)@.trips, name@, stamp@),
        final(store)@ == (StoreV { trips: final(store)@.trips, ..old(store)@ }),
{
    let ghost before = store@;
    if name.is_empty() {
        return None;
    }
    match find_named(&store.trips, name) {
        Some(i) => {
            assert(before.trips[i as int] == store.trips@[i as int]@);
            Some(store.trips[i].id.clone())
        },
        None => {
            let id = join2("t_", stamp);
            let t = Trip {
                id: id.clone(),
                name: name.to_owned(),
                em: "🧳".to_owned(),
                color: trip_color(store.trips.len()).to_owned(),
                start_date: String::new(),
                end_date: String::new(),
                note: String::new(),
                status: "done".to_owned(),
                checklist: Vec::new(),
                guide: Json::Null,
            };
            let ghost meaning = t@;
            assert(meaning =~= region_trip(id@, name@, palette(before.trips.len() as int)));
            store.trips.push(t);
            assert(views(store.trips@) =~= before.trips.push(meaning));
            assert(store@ =~= StoreV { trips: before.trips.push(meaning), ..before });
            Some(id)
        },
    }
}

/// The first position that is marked.
pub open spec fn first_marked(near: Seq<bool>) -> Option<int>
    decreases near.len(),
{
    if near.len() == 0 {
        None
    } else {
        match first_marked(near.drop_last()) {
            Some(i) => Some(i),
            None => if near.last() {
                Some(near.len() - 1)
            } else {
                None
            },
        }
    }
}

/// A first mark is a mark.
proof fn lemma_first_marked(near: Seq<bool>)
    ensures
        match first_marked(near) {
            Some(i) => 0 <= i < near.len() && near[i] && forall|j: int| 0 <= j < i ==> !near[j],
            None => forall|j: int| 0 <= j < near.len() ==> !near[j],
        },
    decreases near.len(),
{
    if near.len() > 0 {
        let front = near.drop_last();
        lemma_first_marked(front);
        assert(forall|j: int| 0 <= j < front.len() ==> front[j] == near[j]);
    }
}

/// The first position that is marked.
fn find_marked(near: &Vec<bool>) -> (r: Option<usize>)
    ensures
        opt_index(r) == first_marked(near@),
{
    let mut i: usize = 0;
    while i < near.len()
        invariant
            i <= near.len(),
            forall|j: int| 0 <= j < i ==> !near@[j],
        decreases near.len() - i,
    {
        if near[i] {
            proof {
                lemma_first_marked(near@);
            }
            return Some(i);
        }
        i = i + 1;
    }
    proof {
        lemma_first_marked(near@);
    }
    None
}

/// The names of a position that no geocoder knows.
pub open spec fn no_names() -> AddressNamesV {
    AddressNamesV {
        city: Seq::empty(),
        name: "新地点"@,
        country: Seq::empty(),
        region: Seq::empty(),
    }
}

/// The names of a position, if a geocoder knew them.
pub open spec fn names_or_none(names: Option<AddressNames>) -> AddressNamesV {
    match names {
        Some(n) => n@,
        None => no_names(),
    }
}

/// A place that was made for a photograph.
pub open spec fn place_of_shot(
    ph: PhotoV,
    color: Option<Seq<char>>,
    lat: Double,
    lng: Double,
    names: AddressNamesV,
    trip_id: Option<Seq<char>>,
) -> PlaceV {
    PlaceV {
        id: "p_"@ + ph.id,
        lng,
        lat,
        name: names.name,
        short: if names.name.len() > 0 {
            names.name
        } else {
            names.city
        },
        city: names.city,
        country: names.country,
        em: "📍"@,
        date: ph.date,
        rating: 0,
        tags: Seq::empty(),
        feel: Seq::empty(),
        photos: seq![ph],
        cover: None,
        status: "visited"@,
        trip_id,
        visits: Seq::empty(),
        category: Seq::empty(),
        color,
        guide: JsonV::Null,
    }
}

/// The store after a photograph was filed by its position, and the id of the place that it is in
/// now. `near` marks the places that are near enough to take it.
pub open spec fn after_near(
    s: StoreV,
    ph: PhotoV,
    color: Option<Seq<char>>,
    lat: Double,
    lng: Double,
    near: Seq<bool>,
    names: AddressNamesV,
    stamp: Seq<char>,
) -> (StoreV, Seq<char>) {
    match first_marked(near) {
        Some(i) => (
            StoreV { places: s.places.update(i, with_shot(s.places[i], ph, color)), ..s },
            s.places[i].id,
        ),
        None => {
            let (trips, trip_id) = with_group(
                s.trips,
                group_name(names.region, names.city),
                stamp,
            );
            (
                StoreV {
                    trips,
                    places: s.places.push(place_of_shot(ph, color, lat, lng, names, trip_id)),
                    ..s
                },
                "p_"@ + ph.id,
            )
        },
    }
}

/// The first place with the given id.
pub open spec fn place_with_id(s: Seq<PlaceV>, id: Seq<char>) -> Option<PlaceV> {
    match index_of(place_ids(s), id) {
        Some(i) => Some(s[i]),
        None => None,
    }
}

/// An optional place, seen as what it means.
pub open spec fn opt_place(o: Option<Place>) -> Option<PlaceV> {
    match o {
        Some(p) => Some(p@),
        None => None,
    }
}

/// Files a photograph by its position: in the first place near by, or else in a new one, which
/// joins the trip of its region. `near` says of each place whether it is near, `names` is what a
/// geocoder made of the position, and `stamp` makes the id of a new trip. The answer is the place.
pub fn file_by_position(
    store: &mut Store,
    photo: &Photo,
    color: &Option<String>,
    lat: Double,
    lng: Double,
    near: &Vec<bool>,
    names: Option<AddressNames>,
    stamp: &str,
) -> (r: Option<Place>)
    requires
        near@.len() == old(store)@.places.len(),
    ensures
        ({
            let (after, id) = after_near(
                old(store)@,
                photo@,
                opt_text(*color),
                lat,
                lng,
                near@,
                names_or_none(names),
                stamp@,
            );
            &&& final(store)@ == after
            &&& opt_place(r) == place_with_id(after.places, id)
            &&& r is Some
        }),
        forall|i: int|
            0 <= i < near@.len() && #[trigger] near@[i] && (forall|j: int|
                0 <= j < i ==> !#[trigger] near@[j]) ==> {
            &&& final(store)@.places.len() == old(store)@.places.len()
            &&& final(store)@.trips == old(store)@.trips
            &&& forall|j: int| 0 <= j < old(store)@.places.len() && j != i
                ==> final(store)@.places[j] == old(store)@.places[j]
            &&& final(store)@.places[i].photos == old(store)@.places[i].photos.push(photo@)
            &&& final(store)@.places[i].date == (match old(store)@.places[i].date {
                Some(d) => Some(d),
                None => photo@.date,
            })
            &&& final(store)@.places[i].color == (match old(store)@.places[i].color {
                Some(c) => Some(c),
                None => opt_text(*color),
            })
            &&& final(store)@.places[i].id == old(store)@.places[i].id
            &&& final(store)@.places[i].lng == old(store)@.places[i].lng
            &&& final(store)@.places[i].lat == old(store)@.places[i].lat
            &&& final(store)@.places[i].name == old(store)@.places[i].name
            &&& final(store)@.places[i].short == old(store)@.places[i].short
            &&& final(store)@.places[i].city == old(store)@.places[i].city
            &&& final(store)@.places[i].country == old(store)@.places[i].country
            &&& final(store)@.places[i].em == old(store)@.places[i].em
            &&& final(store)@.places[i].rating == old(store)@.places[i].rating
            &&& final(store)@.places[i].tags == old(store)@.places[i].tags
            &&& final(store)@.places[i].feel == old(store)@.places[i].feel
            &&& final(store)@.places[i].cover == old(store)@.places[i].cover
            &&& final(store)@.places[i].status == old(store)@.places[i].status
            &&& final(store)@.places[i].trip_id == old(store)@.places[i].trip_id
            &&& final(store)@.places[i].visits == old(store)@.places[i].visits
            &&& final(store)@.places[i].category == old(store)@.places[i].category
            &&& final(store)@.places[i].guide == old(store)@.places[i].guide
            &&& (forall|j: int| 0 <= j < i
                ==> (#[trigger] old(store)@.places[j]).id != old(store)@.places[i].id)
                ==> opt_place(r) == Some(final(store)@.places[i])
            },
        (forall|i: int| 0 <= i < near@.len() ==> !#[trigger] near@[i]) ==> {
            &&& final(store)@.places.len() == old(store)@.places.len() + 1
            &&& forall|j: int| 0 <= j < old(store)@.places.len()
                ==> final(store)@.places[j] == old(store)@.places[j]
            &&& final(store)@.places.last().id == "p_"@ + photo@.id
            &&& final(store)@.places.last().date == photo@.date
            &&& final(store)@.places.last().photos.len() == 1
            &&& final(store)@.places.last().photos[0].id == photo@.id
            &&& final(store)@.places.last().photos[0].url == photo@.url
            &&& final(store)@.places.last().photos[0].thumb == photo@.thumb
            &&& final(store)@.places.last().photos[0].date == photo@.date
            &&& final(store)@.places.last().lat == lat
            &&& final(store)@.places.last().lng == lng
            &&& final(store)@.places.last().color == opt_text(*color)
            &&& final(store)@.places.last().name == names_or_none(names).name
            &&& names_or_none(names).name.len() > 0
                ==> final(store)@.places.last().short == names_or_none(names).name
            &&& final(store)@.places.last().city == names_or_none(names).city
            &&& final(store)@.places.last().country == names_or_none(names).country
            &&& final(store)@.places.last().em == "📍"@
            &&& final(store)@.places.last().status == "visited"@
            &&& final(store)@.places.last().rating == 0
            &&& final(store)@.places.last().tags.len() == 0
            &&& final(store)@.places.last().feel.len() == 0
            &&& final(store)@.places.last().cover is None
            &&& final(store)@.places.last().visits.len() == 0
            &&& final(store)@.places.last().category.len() == 0
            &&& final(store)@.places.last().guide is Null
            &&& (forall|j: int| 0 <= j < old(store)@.places.len()
                ==> (#[trigger] old(store)@.places[j]).id != "p_"@ + photo@.id)
                ==> opt_place(r) == Some(final(store)@.places.last())
        },
{
    let ghost before = store@;
    let ghost known = names_or_none(names);
    proof {
        lemma_first_marked(near@);
    }
    let id: String = match find_marked(near) {
        Some(i) => {
            proof {
                lemma_first_marked(near@);
            }
            assert(before.places[i as int] == store.places@[i as int]@);
            let id = store.places[i].id.clone();
            add_shot(store, i, photo, color);
            proof {
                assert(place_ids(store@.places)[i as int] == id@);
            }
            id
        },
        None => {
            let n: AddressNames = match names {
                Some(n) => n,
                None => AddressNames {
                    city: String::new(),
                    name: "新地点".to_owned(),
                    country: String::new(),
                    region: String::new(),
                },
            };
            assert(n@ =~= known);
            let group = trip_group_name(n.region.as_str(), n.city.as_str());
            let trip_id = join_group(store, group.as_str(), stamp);
            let ghost joined = opt_text(trip_id);
            let id = join2("p_", photo.id.as_str());
            let photos: Vec<Photo> = vec![photo.copy()];
            let short: String = if n.name.as_str().is_empty() {
                n.city.clone()
            } else {
                n.name.clone()
            };
            let p = Place {
                id: id.clone(),
                lng,
                lat,
                name: n.name,
                short,
                city: n.city,
                country: n.country,
                em: "📍".to_owned(),
                date: copy_opt(&photo.date),
                rating: 0,
                tags: Vec::new(),
                feel: String::new(),
                photos,
                cover: None,
                status: "visited".to_owned(),
                trip_id,
                visits: Vec::new(),
                category: String::new(),
                color: copy_opt(color),
                guide: Json::Null,
            };
            let ghost meaning = p@;
            proof {
                assert(p@.photos =~= seq![photo@]);
                assert(p@.tags =~= Seq::empty());
                assert(p@.visits =~= Seq::empty());
                assert(meaning =~= place_of_shot(photo@, opt_text(*color), lat, lng, known, joined));
            }
            let ghost grouped = store@;
            store.places.push(p);
            assert(views(store.places@) =~= before.places.push(meaning));
            assert(store@ =~= StoreV { places: before.places.push(meaning), ..grouped });
            proof {
                assert(place_ids(store@.places)[before.places.len() as int] == id@);
            }
            id
        },
    };
    proof {
        lemma_index_of(place_ids(store@.places), id@);
        assert(place_ids(store@.places).contains(id@));
        assert forall|i: int|
            0 <= i < near@.len() && #[trigger] near@[i] && (forall|j: int|
                0 <= j < i ==> !#[trigger] near@[j]) implies first_marked(near@) == Some(i) by {
            lemma_first_marked(near@);
        }
        if first_marked(near@) is Some {
            law_the_place_near_by(
                before,
                photo@,
                opt_text(*color),
                lat,
                lng,
                near@,
                known,
                stamp@,
                first_marked(near@)->0,
            );
        }
        if forall|i: int| 0 <= i < near@.len() ==> !#[trigger] near@[i] {
            law_the_new_place(before, photo@, opt_text(*color), lat, lng, near@, known, stamp@);
        }
    }
    match find_place(&store.places, id.as_str()) {
        Some(k) => {
            assert(store@.places[k as int] == store.places@[k as int]@);
            Some(store.places[k].copy())
        },
        None => None,
    }
}

/// How far an uploaded photograph has been taken in.
#[derive(Clone, Copy, Debug, PartialEq, Eq, Structural)]
pub enum Taking {
    /// It is to be decoded.
    Decode,
    /// Its picture is to be written.
    Write,
    /// Its small version is to be written, which may fail.
    WriteSmall,
    /// It is to be filed as far as its names are not needed; see [`file_photo`].
    File,
    /// The names of its position are to be asked for, which may fail.
    AskNames,
    /// It is to be filed by its position; see [`file_by_position`].
    FileByPosition,
    /// The store is to be written.
    Save,
    /// The store is to be taken back, and its files removed.
    Undo,
    /// It is in the store.
    Done,
    /// It could not be decoded.
    Undecoded,
    /// Its picture could not be written.
    Unwritten,
    /// The store could not be written, and is as before.
    Unsaved,
}

/// The step that follows one, given whether that succeeded; for [`Taking::File`], whether the
/// photograph was filed.
pub open spec fn taking_after(step: Taking, done: bool) -> Taking {
    match step {
        Taking::Decode => if done {
            Taking::Write
        } else {
            Taking::Undecoded
        },
        Taking::Write => if done {
            Taking::WriteSmall
        } else {
            Taking::Unwritten
        },
        Taking::WriteSmall => Taking::File,
        Taking::File => if done {
            Taking::Save
        } else {
            Taking::AskNames
        },
        Taking::AskNames => Taking::FileByPosition,
        Taking::FileByPosition => Taking::Save,
        Taking::Save => if done {
            Taking::Done
        } else {
            Taking::Undo
        },
        Taking::Undo => Taking::Unsaved,
        other => other,
    }
}

impl Taking {
    /// The step that follows this one, given whether it succeeded; for [`Taking::File`], whether
    /// the photograph was filed.
    pub fn next(self, done: bool) -> (r: Taking)
        ensures
            r == taking_after(self, done),
    {
        match self {
            Taking::Decode => if done {
                Taking::Write
            } else {
                Taking::Undecoded
            },
            Taking::Write => if done {
                Taking::WriteSmall
            } else {
                Taking::Unwritten
            },
            Taking::WriteSmall => Taking::File,
            Taking::File => if done {
                Taking::Save
            } else {
                Taking::AskNames
            },
            Taking::AskNames => Taking::FileByPosition,
            Taking::FileByPosition => Taking::Save,
            Taking::Save => if done {
                Taking::Done
            } else {
                Taking::Undo
            },
            Taking::Undo => Taking::Unsaved,
            other => other,
        }
    }
}

/// The step that is reached once steps have ended so.
pub open spec fn taking_reached(outcomes: Seq<bool>) -> Taking
    decreases outcomes.len(),
{
    if outcomes.len() == 0 {
        Taking::Decode
    } else {
        taking_after(taking_reached(outcomes.drop_last()), outcomes.last())
    }
}

/// Whether the store is changed for a photograph, or has been, at this step.
pub open spec fn files_photo(step: Taking) -> bool {
    ||| step is File
    ||| step is AskNames
    ||| step is FileByPosition
    ||| step is Save
    ||| step is Undo
    ||| step is Done
    ||| step is Unsaved
}

/// A photograph that was not decoded, or whose picture was not written, is never filed in the
/// store; and none counts as taken in unless the store was written after it was filed.
pub proof fn law_only_written_photos_are_filed(outcomes: Seq<bool>)
    ensures
        files_photo(taking_reached(outcomes)) ==> outcomes.len() >= 3 && outcomes[0] && outcomes[1],
        outcomes.len() >= 1 && !outcomes[0] ==> taking_reached(outcomes) is Undecoded,
        outcomes.len() >= 2 && outcomes[0] && !outcomes[1] ==> taking_reached(
            outcomes,
        ) is Unwritten,
        taking_reached(outcomes) is Done ==> outcomes.len() >= 5 && if outcomes[3] {
            outcomes[4]
        } else {
            outcomes.len() >= 7 && outcomes[6]
        },
{
    lemma_taking(outcomes);
}

/// Which step is reached, outcome by outcome.
proof fn lemma_taking(o: Seq<bool>)
    ensures
        ({
            let step = taking_reached(o);
            let n = o.len();
            if n == 0 {
                step is Decode
            } else if !o[0] {
                step is Undecoded
            } else if n == 1 {
                step is Write
            } else if !o[1] {
                step is Unwritten
            } else if n == 2 {
                step is WriteSmall
            } else if n == 3 {
                step is File
            } else {
                let save: nat = if o[3] {
                    4
                } else {
                    6
                };
                if n < save {
                    (n == 4 && step is AskNames) || (n == 5 && step is FileByPosition)
                } else if n == save {
                    step is Save
                } else if o[save as int] {
                    step is Done
                } else if n == save + 1 {
                    step is Undo
                } else {
                    step is Unsaved
                }
            }
        }),
    decreases o.len(),
{
    if o.len() > 0 {
        let front = o.drop_last();
        lemma_taking(front);
        assert(front.len() > 0 ==> front[0] == o[0]);
        assert(front.len() > 1 ==> front[1] == o[1]);
        assert(front.len() > 3 ==> front[3] == o[3]);
        assert(front.len() > 4 ==> front[4] == o[4]);
        assert(front.len() > 6 ==> front[6] == o[6]);
        assert(o.last() == o[o.len() - 1]);
    }
}

/// How many photographs the places have.
pub open spec fn placed_photos(s: Seq<PlaceV>) -> nat
    decreases s.len(),
{
    if s.len() == 0 {
        0
    } else {
        placed_photos(s.drop_last()) + s.last().photos.len()
    }
}

/// How many photographs a store knows of.
pub open spec fn photo_count(s: StoreV) -> nat {
    placed_photos(s.places) + s.unplaced.len()
}

/// Changing one place changes the number of photographs by what it changes of its own.
proof fn lemma_photos_update(s: Seq<PlaceV>, i: int, p: PlaceV)
    requires
        0 <= i < s.len(),
    ensures
        placed_photos(s.update(i, p)) == placed_photos(s) - s[i].photos.len() + p.photos.len(),
    decreases s.len(),
{
    let t = s.update(i, p);
    if i == s.len() - 1 {
        assert(t.drop_last() =~= s.drop_last());
    } else {
        lemma_photos_update(s.drop_last(), i, p);
        assert(t.drop_last() =~= s.drop_last().update(i, p));
    }
}

/// However a photograph is filed, the store knows of one photograph more: of the new one, and of
/// all that it knew before.
pub proof fn law_no_photo_is_lost(
    s: StoreV,
    target: Option<Seq<char>>,
    ph: PhotoV,
    color: Option<Seq<char>>,
    file_name: Seq<char>,
    lat: Double,
    lng: Double,
    near: Seq<bool>,
    names: AddressNamesV,
    stamp: Seq<char>,
)
    requires
        near.len() == s.places.len(),
    ensures
        after_target(s, target, ph, color) matches Some((t, p)) ==> photo_count(t) == photo_count(s)
            + 1 && p.photos.last() == ph,
        photo_count(after_aside(s, ph, file_name)) == photo_count(s) + 1,
        photo_count(after_near(s, ph, color, lat, lng, near, names, stamp).0) == photo_count(s) + 1,
{
    if after_target(s, target, ph, color) is Some {
        lemma_index_of(place_ids(s.places), target->0);
        let i = index_of(place_ids(s.places), target->0)->0;
        lemma_photos_update(s.places, i, with_shot(s.places[i], ph, color));
    }
    lemma_first_marked(near);
    match first_marked(near) {
        Some(i) => {
            lemma_photos_update(s.places, i, with_shot(s.places[i], ph, color));
        },
        None => {
            let t = after_near(s, ph, color, lat, lng, near, names, stamp).0;
            assert(t.places.drop_last() =~= s.places);
        },
    }
}

/// Giving a photograph a place by hand neither loses nor makes one.
pub proof fn law_assign_keeps_the_count(s: StoreV, id: Seq<char>, body: JsonV, stamp: Seq<char>)
    ensures
        after_assign(s, id, body, stamp) matches Ok((t, _)) ==> photo_count(t) == photo_count(s),
{
    lemma_index_of(unplaced_ids(s.unplaced), id);
    if let Ok((t, p)) = after_assign(s, id, body, stamp) {
        match crate::unplaced::filled_member(body, "placeId"@) {
            Some(pid) => {
                lemma_index_of(place_ids(s.places), pid);
                let i = index_of(place_ids(s.places), pid)->0;
                lemma_photos_update(s.places, i, p);
            },
            None => {
                assert(t.places.drop_last() =~= s.places);
            },
        }
    }
}

/// Photographs of one region make one trip: once a trip has the name, joining it again adds none
/// and finds the same one.
pub proof fn law_one_trip_per_region(
    trips: Seq<TripV>,
    name: Seq<char>,
    stamp: Seq<char>,
    later: Seq<char>,
)
    ensures
        ({
            let (after, id) = with_group(trips, name, stamp);
            with_group(after, name, later) == (after, id)
        }),
{
    let (after, id) = with_group(trips, name, stamp);
    lemma_index_of(trip_names(trips), name);
    lemma_index_of(trip_names(after), name);
    if name.len() > 0 && index_of(trip_names(trips), name) is None {
        let n = trips.len() as int;
        assert(trip_names(after)[n] == name);
        assert(trip_names(after).contains(name));
        let k = index_of(trip_names(after), name)->0;
        if k < n {
            assert(trip_names(trips)[k] == trip_names(after)[k]);
            assert(trip_names(trips).contains(name));
        }
    }
}

/// A photograph taken near a place makes no new place and no new trip.
pub proof fn law_near_photos_make_no_place(
    s: StoreV,
    ph: PhotoV,
    color: Option<Seq<char>>,
    lat: Double,
    lng: Double,
    near: Seq<bool>,
    names: AddressNamesV,
    stamp: Seq<char>,
)
    requires
        near.len() == s.places.len(),
        near.contains(true),
    ensures
        ({
            let (t, id) = after_near(s, ph, color, lat, lng, near, names, stamp);
            &&& t.places.len() == s.places.len()
            &&& t.trips == s.trips
            &&& place_ids(t.places) == place_ids(s.places)
        }),
{
    lemma_first_marked(near);
    let t = after_near(s, ph, color, lat, lng, near, names, stamp).0;
    assert(first_marked(near) is Some);
    assert(place_ids(t.places) =~= place_ids(s.places));
}

/// A photograph taken near a place joins the first such place. That has its date and its colour
/// from the photograph if it had none, and nothing else of it changes, nor does any other place.
pub proof fn law_the_place_near_by(
    s: StoreV,
    ph: PhotoV,
    color: Option<Seq<char>>,
    lat: Double,
    lng: Double,
    near: Seq<bool>,
    names: AddressNamesV,
    stamp: Seq<char>,
    i: int,
)
    requires
        near.len() == s.places.len(),
        0 <= i < near.len(),
        near[i],
        forall|j: int| 0 <= j < i ==> !#[trigger] near[j],
    ensures
        ({
            let (t, id) = after_near(s, ph, color, lat, lng, near, names, stamp);
            let r = place_with_id(t.places, id);
            &&& t.places.len() == s.places.len()
            &&& t.trips == s.trips
            &&& forall|j: int| 0 <= j < s.places.len() && j != i ==> t.places[j] == s.places[j]
            &&& t.places[i].photos == s.places[i].photos.push(ph)
            &&& t.places[i].date == (match s.places[i].date {
                Some(d) => Some(d),
                None => ph.date,
            })
            &&& t.places[i].color == (match s.places[i].color {
                Some(c) => Some(c),
                None => color,
            })
            &&& t.places[i].id == s.places[i].id
            &&& t.places[i].lng == s.places[i].lng
            &&& t.places[i].lat == s.places[i].lat
            &&& t.places[i].name == s.places[i].name
            &&& t.places[i].short == s.places[i].short
            &&& t.places[i].city == s.places[i].city
            &&& t.places[i].country == s.places[i].country
            &&& t.places[i].em == s.places[i].em
            &&& t.places[i].rating == s.places[i].rating
            &&& t.places[i].tags == s.places[i].tags
            &&& t.places[i].feel == s.places[i].feel
            &&& t.places[i].cover == s.places[i].cover
            &&& t.places[i].status == s.places[i].status
            &&& t.places[i].trip_id == s.places[i].trip_id
            &&& t.places[i].visits == s.places[i].visits
            &&& t.places[i].category == s.places[i].category
            &&& t.places[i].guide == s.places[i].guide
            &&& (forall|j: int| 0 <= j < i ==> (#[trigger] s.places[j]).id != s.places[i].id)
                ==> r == Some(t.places[i])
            &&& t.unplaced == s.unplaced && t.cities == s.cities && t.profile == s.profile
            &&& t.likes == s.likes && t.messages == s.messages && t.views == s.views
            &&& t.version == s.version
        }),
{
    lemma_first_marked(near);
    assert(first_marked(near) == Some(i));
    let (t, id) = after_near(s, ph, color, lat, lng, near, names, stamp);
    assert(t.places == s.places.update(i, t.places[i]));
    let ids = place_ids(t.places);
    lemma_index_of(ids, id);
    assert(ids[i] == s.places[i].id);
    assert(ids.contains(id));
    if forall|j: int| 0 <= j < i ==> (#[trigger] s.places[j]).id != s.places[i].id {
        let k = index_of(ids, id)->0;
        if k < i {
            assert(ids[k] == s.places[k].id);
        }
        assert(k == i);
    }
}

/// A place that is made for a photograph has the photograph's date, and its only photograph is
/// exactly the one that was uploaded; it stands where the photograph was taken and is called what
/// the position is called. No other place changes.
pub proof fn law_the_new_place(
    s: StoreV,
    ph: PhotoV,
    color: Option<Seq<char>>,
    lat: Double,
    lng: Double,
    near: Seq<bool>,
    names: AddressNamesV,
    stamp: Seq<char>,
)
    requires
        near.len() == s.places.len(),
        forall|i: int| 0 <= i < near.len() ==> !#[trigger] near[i],
    ensures
        ({
            let (t, id) = after_near(s, ph, color, lat, lng, near, names, stamp);
            let r = place_with_id(t.places, id);
            &&& t.places.len() == s.places.len() + 1
            &&& forall|j: int| 0 <= j < s.places.len() ==> t.places[j] == s.places[j]
            &&& t.places.last().id == "p_"@ + ph.id
            &&& t.places.last().date == ph.date
            &&& t.places.last().photos.len() == 1
            &&& t.places.last().photos[0].id == ph.id
            &&& t.places.last().photos[0].url == ph.url
            &&& t.places.last().photos[0].thumb == ph.thumb
            &&& t.places.last().photos[0].date == ph.date
            &&& t.places.last().lat == lat
            &&& t.places.last().lng == lng
            &&& t.places.last().color == color
            &&& t.places.last().name == names.name
            &&& names.name.len() > 0 ==> t.places.last().short == names.name
            &&& t.places.last().city == names.city
            &&& t.places.last().country == names.country
            &&& t.places.last().em == "📍"@
            &&& t.places.last().status == "visited"@
            &&& t.places.last().rating == 0
            &&& t.places.last().tags.len() == 0
            &&& t.places.last().feel.len() == 0
            &&& t.places.last().cover is None
            &&& t.places.last().visits.len() == 0
            &&& t.places.last().category.len() == 0
            &&& t.places.last().guide is Null
            &&& (forall|j: int| 0 <= j < s.places.len()
                ==> (#[trigger] s.places[j]).id != "p_"@ + ph.id)
                ==> r == Some(t.places.last())
            &&& t.unplaced == s.unplaced && t.cities == s.cities && t.profile == s.profile
            &&& t.likes == s.likes && t.messages == s.messages && t.views == s.views
            &&& t.version == s.version
        }),
{
    lemma_first_marked(near);
    if first_marked(near) is Some {
        assert(near[first_marked(near)->0]);
    }
    let (t, id) = after_near(s, ph, color, lat, lng, near, names, stamp);
    let n = s.places.len() as int;
    assert(t.places == s.places.push(t.places[n]));
    let ids = place_ids(t.places);
    lemma_index_of(ids, id);
    assert(ids[n] == id);
    assert(ids.contains(id));
    if forall|j: int| 0 <= j < n ==> (#[trigger] s.places[j]).id != "p_"@ + ph.id {
        let k = index_of(ids, id)->0;
        if k < n {
            assert(ids[k] == s.places[k].id);
        }
        assert(k == n);
    }
}

/// A place that is answered for a photograph with a date has a date: the one that it had before, or
/// else the photograph's.
pub proof fn law_dated_photos_date_their_place(
    s: StoreV,
    ph: PhotoV,
    color: Option<Seq<char>>,
    lat: Double,
    lng: Double,
    near: Seq<bool>,
    names: AddressNamesV,
    stamp: Seq<char>,
)
    requires
        near.len() == s.places.len(),
        ph.date is Some,
        forall|i: int, j: int|
            0 <= i < j < s.places.len() ==> (#[trigger] s.places[i]).id != (
            #[trigger] s.places[j]).id,
        forall|j: int| 0 <= j < s.places.len() ==> (#[trigger] s.places[j]).id != "p_"@ + ph.id,
    ensures
        ({
            let (t, id) = after_near(s, ph, color, lat, lng, near, names, stamp);
            &&& place_with_id(t.places, id) matches Some(p)
            &&& p.date is Some
            &&& p.photos.last() == ph
            &&& match place_with_id(s.places, p.id) {
                Some(q) => if q.date is Some {
                    p.date == q.date
                } else {
                    p.date == ph.date
                },
                None => p.date == ph.date,
            }
        }),
{
    lemma_first_marked(near);
    match first_marked(near) {
        Some(i) => {
            law_the_place_near_by(s, ph, color, lat, lng, near, names, stamp, i);
            let ids = place_ids(s.places);
            lemma_index_of(ids, s.places[i].id);
            assert(ids[i] == s.places[i].id);
            assert(ids.contains(s.places[i].id));
            let k = index_of(ids, s.places[i].id)->0;
            assert(ids[k] == s.places[k].id);
            assert(k == i);
        },
        None => {
            law_the_new_place(s, ph, color, lat, lng, near, names, stamp);
            let ids = place_ids(s.places);
            let id = "p_"@ + ph.id;
            lemma_index_of(ids, id);
            if index_of(ids, id) is Some {
                let k = index_of(ids, id)->0;
                assert(ids[k] == s.places[k].id);
            }
        },
    }
}

/// A new place joins the trip that has the name of its region, the first one if there are several.
/// Where there is none, a trip is made, which is over and empty; and a place without a region or a
/// city joins none.
pub proof fn law_the_trip_of_a_new_place(
    s: StoreV,
    ph: PhotoV,
    color: Option<Seq<char>>,
    lat: Double,
    lng: Double,
    near: Seq<bool>,
    names: AddressNamesV,
    stamp: Seq<char>,
)
    requires
        near.len() == s.places.len(),
        forall|i: int| 0 <= i < near.len() ==> !#[trigger] near[i],
    ensures
        ({
            let t = after_near(s, ph, color, lat, lng, near, names, stamp).0;
            let name = group_name(names.region, names.city);
            let p = t.places.last();
            &&& name.len() == 0 ==> p.trip_id is None && t.trips == s.trips
            &&& forall|k: int|
                name.len() > 0 && 0 <= k < s.trips.len() && (#[trigger] s.trips[k]).name == name
                    && (
                forall|j: int| 0 <= j < k ==> (#[trigger] s.trips[j]).name != name) ==> p.trip_id
                    == Some(s.trips[k].id) && t.trips == s.trips
            &&& name.len() > 0 && (forall|k: int|
                0 <= k < s.trips.len() ==> (#[trigger] s.trips[k]).name != name) ==> {
                let trip = t.trips.last();
                &&& t.trips.len() == s.trips.len() + 1
                &&& forall|k: int| 0 <= k < s.trips.len() ==> t.trips[k] == s.trips[k]
                &&& trip.id == "t_"@ + stamp
                &&& p.trip_id == Some(trip.id)
                &&& trip.name == name
                &&& trip.em == "🧳"@
                &&& trip.status == "done"@
                &&& trip.start_date.len() == 0 && trip.end_date.len() == 0
                &&& trip.note.len() == 0 && trip.checklist.len() == 0
                &&& trip.guide is Null
                &&& s.trips.len() % 6 == 0 ==> trip.color == "#E0684F"@
                &&& s.trips.len() % 6 == 1 ==> trip.color == "#4F7DA3"@
                &&& s.trips.len() % 6 == 2 ==> trip.color == "#3E6B57"@
                &&& s.trips.len() % 6 == 3 ==> trip.color == "#C89B4B"@
                &&& s.trips.len() % 6 == 4 ==> trip.color == "#8A6BA8"@
                &&& s.trips.len() % 6 == 5 ==> trip.color == "#4FA39A"@
            }
        }),
{
    lemma_first_marked(near);
    if first_marked(near) is Some {
        assert(near[first_marked(near)->0]);
    }
    let name = group_name(names.region, names.city);
    let all = trip_names(s.trips);
    lemma_index_of(all, name);
    assert forall|k: int|
        name.len() > 0 && 0 <= k < s.trips.len() && (#[trigger] s.trips[k]).name == name && (forall|
            j: int,
        |
            0 <= j < k
                ==> (#[trigger] s.trips[j]).name != name) implies index_of(all, name) == Some(
        k,
    ) by {
        assert(all[k] == name);
        assert(all.contains(name));
        let at = index_of(all, name)->0;
        assert(all[at] == s.trips[at].name);
    }
    if index_of(all, name) is Some {
        let at = index_of(all, name)->0;
        assert(all[at] == s.trips[at].name);
    }
}

/// A photograph is addressed by its id.
pub proof fn law_photos_are_addressed_by_id(id: Seq<char>, date: Option<Seq<char>>)
    ensures
        photo_of(id, date).id == id,
        photo_of(id, date).date == date,
        photo_of(id, date).url == "/photos/"@ + id + ".jpg"@,
        photo_of(id, date).thumb == "/photos/thumb/"@ + id + ".jpg"@,
{
}

/// A photograph that was put aside is the uploaded one under the name of its file; those that were
/// put aside before stay, and so does all else.
pub proof fn law_putting_aside(s: StoreV, ph: PhotoV, file_name: Seq<char>)
    ensures
        ({
            let t = after_aside(s, ph, file_name);
            &&& t.unplaced.len() == s.unplaced.len() + 1
            &&& forall|j: int| 0 <= j < s.unplaced.len() ==> t.unplaced[j] == s.unplaced[j]
            &&& t.unplaced.last().id == ph.id
            &&& t.unplaced.last().url == ph.url
            &&& t.unplaced.last().thumb == ph.thumb
            &&& t.unplaced.last().name == file_name
            &&& t.places == s.places && t.trips == s.trips && t.cities == s.cities
            &&& t.profile == s.profile && t.likes == s.likes && t.messages == s.messages
            &&& t.views == s.views && t.version == s.version
        }),
{
}

/// A photograph that was uploaded to a place is the last of that place's; the place has its date and
/// its colour from it if it had none.
pub proof fn law_the_place_asked_for(
    s: StoreV,
    id: Seq<char>,
    ph: PhotoV,
    color: Option<Seq<char>>,
    i: int,
)
    requires
        0 <= i < s.places.len(),
        s.places[i].id == id,
        forall|j: int| 0 <= j < i ==> (#[trigger] s.places[j]).id != id,
    ensures
        after_target(s, Some(id), ph, color) is Some,
        ({
            let (t, r) = after_target(s, Some(id), ph, color)->0;
            &&& t.places.len() == s.places.len()
            &&& t.trips == s.trips
            &&& forall|j: int| 0 <= j < s.places.len() && j != i ==> t.places[j] == s.places[j]
            &&& t.places[i].photos == s.places[i].photos.push(ph)
            &&& t.places[i].date == (match s.places[i].date {
                Some(d) => Some(d),
                None => ph.date,
            })
            &&& t.places[i].color == (match s.places[i].color {
                Some(c) => Some(c),
                None => color,
            })
            &&& t.places[i].id == s.places[i].id
            &&& t.places[i].lng == s.places[i].lng
            &&& t.places[i].lat == s.places[i].lat
            &&& t.places[i].name == s.places[i].name
            &&& t.places[i].short == s.places[i].short
            &&& t.places[i].city == s.places[i].city
            &&& t.places[i].country == s.places[i].country
            &&& t.places[i].em == s.places[i].em
            &&& t.places[i].rating == s.places[i].rating
            &&& t.places[i].tags == s.places[i].tags
            &&& t.places[i].feel == s.places[i].feel
            &&& t.places[i].cover == s.places[i].cover
            &&& t.places[i].status == s.places[i].status
            &&& t.places[i].trip_id == s.places[i].trip_id
            &&& t.places[i].visits == s.places[i].visits
            &&& t.places[i].category == s.places[i].category
            &&& t.places[i].guide == s.places[i].guide
            &&& (forall|j: int| 0 <= j < i ==> (#[trigger] s.places[j]).id != s.places[i].id)
                ==> Some(r) == Some(t.places[i])
            &&& t.unplaced == s.unplaced && t.cities == s.cities && t.profile == s.profile
            &&& t.likes == s.likes && t.messages == s.messages && t.views == s.views
            &&& t.version == s.version
        }),
{
    let ids = place_ids(s.places);
    lemma_index_of(ids, id);
    assert(ids[i] == id);
    assert(ids.contains(id));
    let k = index_of(ids, id)->0;
    assert(ids[k] == s.places[k].id);
    assert(k == i);
}

/// A form's field `place_id` asks for a place; one that is blank, and any other field, does not.
pub proof fn law_the_field_that_asks(
    target: Option<Seq<char>>,
    field: Seq<char>,
    data: Seq<u8>,
)
    ensures
        field == "place_id"@ && trimmed(utf8_lossy(data)).len() > 0 ==> target_after(
            target,
            field,
            data,
        ) == Some(trimmed(utf8_lossy(data))),
        field != "place_id"@ || trimmed(utf8_lossy(data)).len() == 0 ==> target_after(
            target,
            field,
            data,
        ) == target,
{
}

/// How an upload goes on: a photograph that cannot be decoded or written ends it, the small version
/// and the names do not, and a store that cannot be written is taken back.
pub proof fn law_how_an_upload_goes_on(done: bool)
    ensures
        taking_after(Taking::Decode, true) is Write,
        taking_after(Taking::Decode, false) is Undecoded,
        taking_after(Taking::Write, true) is WriteSmall,
        taking_after(Taking::Write, false) is Unwritten,
        taking_after(Taking::WriteSmall, done) is File,
        taking_after(Taking::File, true) is Save,
        taking_after(Taking::File, false) is AskNames,
        taking_after(Taking::AskNames, done) is FileByPosition,
        taking_after(Taking::FileByPosition, done) is Save,
        taking_after(Taking::Save, true) is Done,
        taking_after(Taking::Save, false) is Undo,
        taking_after(Taking::Undo, done) is Unsaved,
        taking_after(Taking::Done, done) is Done,
        taking_after(Taking::Undecoded, done) is Undecoded,
        taking_after(Taking::Unwritten, done) is Unwritten,
        taking_after(Taking::Unsaved, done) is Unsaved,
{
}

/// A position that no geocoder knows has no city, country or region, and is just a new place; one
/// without a name of its own goes by its city for short.
pub proof fn law_unknown_positions(
    ph: PhotoV,
    color: Option<Seq<char>>,
    lat: Double,
    lng: Double,
    names: AddressNamesV,
    trip_id: Option<Seq<char>>,
)
    ensures
        no_names().name == "新地点"@,
        no_names().city.len() == 0,
        no_names().country.len() == 0,
        no_names().region.len() == 0,
        names.name.len() == 0 ==> place_of_shot(ph, color, lat, lng, names, trip_id).short
            == names.city,
        place_of_shot(ph, color, lat, lng, names, trip_id).trip_id == trip_id,
{
}

} // verus!

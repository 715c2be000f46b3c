//! What the public sees of the map: places only roughly where they are, dates without a day.

use vstd::prelude::*;
use crate::json::{copy_vec, views, Double, Duplicate, Json, JsonV};
use crate::model::{
    City, LikeCount, Photo, PhotoV, Place, PlaceV, Profile, Store, StoreV, Trip, Visit, VisitV,
};
use crate::names::{date_seps, law_no_day_is_left, month_of, trunc_ym};
use crate::text::{byte_len, opt_text, split_at_any};

verus! {

/// An optional date, cut down to its month.
pub open spec fn opt_month(d: Option<Seq<char>>) -> Option<Seq<char>> {
    match d {
        Some(s) => Some(month_of(s)),
        None => None,
    }
}

/// Cuts an optional date down to its month.
fn opt_trunc(d: &Option<String>) -> (r: Option<String>)
    ensures
        opt_text(r) == opt_month(opt_text(*d)),
{
    match d {
        Some(s) => Some(trunc_ym(s.as_str())),
        None => None,
    }
}

/// What a guest sees of a visit.
pub open spec fn guest_visit(v: VisitV) -> VisitV {
    VisitV { date: month_of(v.date), ..v }
}

/// What a guest sees of a photograph.
pub open spec fn guest_photo(p: PhotoV) -> PhotoV {
    PhotoV { date: opt_month(p.date), ..p }
}

/// What a guest sees of a place, given its rounded position.
pub open spec fn guest_place(p: PlaceV, lat: Double, lng: Double) -> PlaceV {
    PlaceV {
        lat,
        lng,
        date: opt_month(p.date),
        visits: Seq::new(p.visits.len(), |i: int| guest_visit(p.visits[i])),
        photos: Seq::new(p.photos.len(), |i: int| guest_photo(p.photos[i])),
        ..p
    }
}

/// A place as a guest sees it. `lat` and `lng` are its position, rounded to two decimals, which
/// is about a kilometre.
pub fn sanitize_place_for_guest(p: &Place, lat: Double, lng: Double) -> (r: Place)
    ensures
        r@ == guest_place(p@, lat, lng),
        ({
            &&& r@.id == p@.id
            &&& r@.name == p@.name
            &&& r@.short == p@.short
            &&& r@.city == p@.city
            &&& r@.country == p@.country
            &&& r@.em == p@.em
            &&& r@.rating == p@.rating
            &&& r@.tags == p@.tags
            &&& r@.feel == p@.feel
            &&& r@.cover == p@.cover
            &&& r@.status == p@.status
            &&& r@.trip_id == p@.trip_id
            &&& r@.category == p@.category
            &&& r@.color == p@.color
            &&& r@.guide == p@.guide
            &&& r@.lat == lat && r@.lng == lng
            &&& r@.date == (match p@.date {
                Some(d) => Some(month_of(d)),
                None => None,
            })
            &&& r@.visits.len() == p@.visits.len()
            &&& forall|i: int|
                0 <= i < p@.visits.len() ==> {
                    &&& (#[trigger] r@.visits[i]).id == p@.visits[i].id
                    &&& r@.visits[i].note == p@.visits[i].note
                    &&& r@.visits[i].rating == p@.visits[i].rating
                    &&& r@.visits[i].date == month_of(p@.visits[i].date)
                }
            &&& r@.photos.len() == p@.photos.len()
            &&& forall|i: int|
                0 <= i < p@.photos.len() ==> {
                    &&& (#[trigger] r@.photos[i]).id == p@.photos[i].id
                    &&& r@.photos[i].url == p@.photos[i].url
                    &&& r@.photos[i].thumb == p@.photos[i].thumb
                    &&& r@.photos[i].date == (match p@.photos[i].date {
                        Some(d) => Some(month_of(d)),
                        None => None,
                    })
                }
        }),
{
    let mut visits: Vec<Visit> = Vec::new();
    let mut i: usize = 0;
    while i < p.visits.len()
        invariant
            i <= p.visits.len(),
            visits@.len() == i,
            forall|k: int|
                0 <= k < i ==> (#[trigger] visits@[k])@ == guest_visit(p.visits@[k]@),
        decreases p.visits.len() - i,
    {
        let v = &p.visits[i];
        let w = Visit {
            id: v.id.clone(),
            date: trunc_ym(v.date.as_str()),
            note: v.note.clone(),
            rating: v.rating,
        };
        assert(w@ =~= guest_visit(v@));
        visits.push(w);
        i = i + 1;
    }
    let mut photos: Vec<Photo> = Vec::new();
    let mut j: usize = 0;
    while j < p.photos.len()
        invariant
            j <= p.photos.len(),
            photos@.len() == j,
            forall|k: int|
                0 <= k < j ==> (#[trigger] photos@[k])@ == guest_photo(p.photos@[k]@),
        decreases p.photos.len() - j,
    {
        let ph = &p.photos[j];
        let w = Photo {
            id: ph.id.clone(),
            url: ph.url.clone(),
            thumb: ph.thumb.clone(),
            date: opt_trunc(&ph.date),
        };
        assert(w@ =~= guest_photo(ph@));
        photos.push(w);
        j = j + 1;
    }
    let mut q = p.copy();
    q.lat = lat;
    q.lng = lng;
    q.date = opt_trunc(&p.date);
    q.visits = visits;
    q.photos = photos;
    assert(views(q.visits@) =~= guest_place(p@, lat, lng).visits);
    assert(views(q.photos@) =~= guest_place(p@, lat, lng).photos);
    assert(q@ =~= guest_place(p@, lat, lng));
    q
}

/// Whether no day is left of a date that begins with a year.
pub open spec fn dayless(shown: Seq<char>, kept: Seq<char>) -> bool {
    byte_len(split_at_any(kept, date_seps())[0]) == 4 ==> split_at_any(shown, date_seps()).len()
        <= 2
}

/// A guest sees of no date that begins with a year more than the month: not of a place, not of a
/// visit, not of a photograph. And of the position a guest sees what the rounding left.
pub proof fn law_guests_see_no_day(p: PlaceV, lat: Double, lng: Double)
    ensures
        ({
            let g = guest_place(p, lat, lng);
            &&& g.lat == lat && g.lng == lng
            &&& (g.date is Some <==> p.date is Some)
            &&& p.date is Some ==> dayless(g.date->0, p.date->0)
            &&& g.visits.len() == p.visits.len()
            &&& forall|i: int|
                0 <= i < p.visits.len() ==> dayless((#[trigger] g.visits[i]).date, p.visits[i].date)
            &&& g.photos.len() == p.photos.len()
            &&& forall|i: int|
                0 <= i < p.photos.len() && p.photos[i].date is Some ==> dayless(
                    (#[trigger] g.photos[i]).date->0,
                    p.photos[i].date->0,
                )
        }),
{
    let g = guest_place(p, lat, lng);
    if p.date is Some {
        law_no_day_is_left(p.date->0);
    }
    assert forall|i: int| 0 <= i < p.visits.len() implies dayless(
        (#[trigger] g.visits[i]).date,
        p.visits[i].date,
    ) by {
        law_no_day_is_left(p.visits[i].date);
    }
    assert forall|i: int| 0 <= i < p.photos.len() && p.photos[i].date is Some implies dayless(
        (#[trigger] g.photos[i]).date->0,
        p.photos[i].date->0,
    ) by {
        law_no_day_is_left(p.photos[i].date->0);
    }
}

/// What a guest has seen once, a guest sees again: showing a place to guests a second time changes
/// nothing.
pub proof fn law_guest_view_is_stable(p: PlaceV, lat: Double, lng: Double)
    ensures
        guest_place(guest_place(p, lat, lng), lat, lng) == guest_place(p, lat, lng),
{
    let g = guest_place(p, lat, lng);
    if p.date is Some {
        law_no_day_is_left(p.date->0);
    }
    assert forall|i: int| 0 <= i < p.visits.len() implies guest_visit(#[trigger] g.visits[i])
        == g.visits[i] by {
        law_no_day_is_left(p.visits[i].date);
    }
    assert forall|i: int| 0 <= i < p.photos.len() implies guest_photo(#[trigger] g.photos[i])
        == g.photos[i] by {
        if p.photos[i].date is Some {
            law_no_day_is_left(p.photos[i].date->0);
        }
    }
    assert(guest_place(g, lat, lng) =~= g);
}

/// The store whose places, cities and trips are shown: the samples, if they are switched on and
/// there is no place of one's own.
pub open spec fn shown_store(own: StoreV, seed: Option<StoreV>) -> StoreV {
    match seed {
        Some(s) => if own.places.len() == 0 {
            s
        } else {
            own
        },
        None => own,
    }
}

/// An optional store, seen as what it means.
pub open spec fn opt_store(o: Option<&Store>) -> Option<StoreV> {
    match o {
        Some(s) => Some(s@),
        None => None,
    }
}

/// The store whose places, cities and trips are shown.
pub fn listed<'a>(own: &'a Store, seed: Option<&'a Store>) -> (r: &'a Store)
    ensures
        r@ == shown_store(own@, opt_store(seed)),
{
    match seed {
        Some(s) => if own.places.len() == 0 {
            s
        } else {
            own
        },
        None => own,
    }
}

/// The answer to a request for the map.
pub struct Listing {
    pub places: Vec<Place>,
    pub cities: Vec<City>,
    pub trips: Vec<Trip>,
    pub profile: Profile,
    pub likes: Vec<LikeCount>,
    pub msg_count: usize,
    /// How often the map was looked at; for the owner only.
    pub views: Option<u64>,
}

/// The places as guests see them, given their rounded positions.
pub open spec fn guest_places(s: Seq<PlaceV>, rounded: Seq<(Double, Double)>) -> Seq<PlaceV> {
    Seq::new(s.len(), |i: int| guest_place(s[i], rounded[i].0, rounded[i].1))
}

/// The map, for the owner as it is, for others as guests see it. `rounded` holds, for each place
/// of the store that is [`listed`], its latitude and longitude rounded to two decimals.
pub fn places(
    own: &Store,
    seed: Option<&Store>,
    owner: bool,
    rounded: &Vec<(Double, Double)>,
) -> (r: Listing)
    requires
        owner || rounded@.len() == shown_store(own@, opt_store(seed)).places.len(),
    ensures
        ({
            let shown = shown_store(own@, opt_store(seed));
            &&& views(r.places@) == if owner {
                shown.places
            } else {
                guest_places(shown.places, rounded@)
            }
            &&& r.places@.len() == shown.places.len()
            &&& !owner ==> forall|i: int|
                0 <= i < shown.places.len() ==> {
                    &&& (#[trigger] r.places@[i])@.lat == rounded@[i].0
                    &&& r.places@[i]@.lng == rounded@[i].1
                    &&& r.places@[i]@.id == shown.places[i].id
                    &&& r.places@[i]@.name == shown.places[i].name
                }
            &&& views(r.cities@) == shown.cities
            &&& views(r.trips@) == shown.trips
            &&& r.profile@ == own@.profile
            &&& views(r.likes@) == own@.likes
            &&& r.msg_count == own@.messages.len()
            &&& r.views == if owner {
                Some(own@.views)
            } else {
                None
            }
        }),
{
    let shown = listed(own, seed);
    let places: Vec<Place> = if owner {
        copy_vec(&shown.places)
    } else {
        let mut out: Vec<Place> = Vec::new();
        let mut i: usize = 0;
        while i < shown.places.len()
            invariant
                i <= shown.places.len(),
                rounded@.len() == shown.places@.len(),
                out@.len() == i,
                forall|k: int|
                    0 <= k < i ==> (#[trigger] out@[k])@ == guest_place(
                        shown.places@[k]@,
                        rounded@[k].0,
                        rounded@[k].1,
                    ),
            decreases shown.places.len() - i,
        {
            out.push(sanitize_place_for_guest(&shown.places[i], rounded[i].0, rounded[i].1));
            i = i + 1;
        }
        assert(views(out@) =~= guest_places(shown@.places, rounded@));
        out
    };
    proof {
        assert(views(places@).len() == places@.len());
        assert forall|i: int| 0 <= i < places@.len() implies (#[trigger] places@[i])@ == views(
            places@,
        )[i] by {}
    }
    Listing {
        places,
        cities: copy_vec(&shown.cities),
        trips: copy_vec(&shown.trips),
        profile: own.profile.copy(),
        likes: copy_vec(&own.likes),
        msg_count: own.messages.len(),
        views: if owner {
            Some(own.views)
        } else {
            None
        },
    }
}

/// The facts about the site that the front end shows: the registration number, which may be
/// empty, and where it can be looked up.
pub fn site_config(icp: &str) -> (r: Json)
    ensures
        r@ == JsonV::Object(
            seq![
                ("icp"@, JsonV::Text(icp@)),
                ("icpUrl"@, JsonV::Text("https://beian.miit.gov.cn/"@)),
            ],
        ),
{
    let v: Vec<(String, Json)> = vec![
        ("icp".to_owned(), Json::Text(icp.to_owned())),
        ("icpUrl".to_owned(), Json::Text("https://beian.miit.gov.cn/".to_owned())),
    ];
    proof {
        crate::json::lemma_object(v);
        assert(crate::json::members(v@) =~= seq![
            ("icp"@, JsonV::Text(icp@)),
            ("icpUrl"@, JsonV::Text("https://beian.miit.gov.cn/"@)),
        ]);
    }
    Json::Object(v)
}

/// What a guest sees of a place is the place itself in every field but its position and its dates;
/// the same holds of its visits and its photographs.
pub proof fn law_guests_see_all_but_position_and_day(p: PlaceV, lat: Double, lng: Double)
    ensures
        ({
            let g = guest_place(p, lat, lng);
            &&& g.id == p.id
            &&& g.name == p.name
            &&& g.short == p.short
            &&& g.city == p.city
            &&& g.country == p.country
            &&& g.em == p.em
            &&& g.rating == p.rating
            &&& g.tags == p.tags
            &&& g.feel == p.feel
            &&& g.cover == p.cover
            &&& g.status == p.status
            &&& g.trip_id == p.trip_id
            &&& g.category == p.category
            &&& g.color == p.color
            &&& g.guide == p.guide
            &&& g.lat == lat && g.lng == lng
            &&& g.date == (match p.date {
                Some(d) => Some(month_of(d)),
                None => None,
            })
            &&& g.visits.len() == p.visits.len()
            &&& forall|i: int|
                0 <= i < p.visits.len() ==> {
                    &&& (#[trigger] g.visits[i]).id == p.visits[i].id
                    &&& g.visits[i].note == p.visits[i].note
                    &&& g.visits[i].rating == p.visits[i].rating
                    &&& g.visits[i].date == month_of(p.visits[i].date)
                }
            &&& g.photos.len() == p.photos.len()
            &&& forall|i: int|
                0 <= i < p.photos.len() ==> {
                    &&& (#[trigger] g.photos[i]).id == p.photos[i].id
                    &&& g.photos[i].url == p.photos[i].url
                    &&& g.photos[i].thumb == p.photos[i].thumb
                    &&& g.photos[i].date == (match p.photos[i].date {
                        Some(d) => Some(month_of(d)),
                        None => None,
                    })
                }
        }),
{
}

/// The samples are shown only where they are switched on and there is no place of one's own.
pub proof fn law_samples_give_way(own: StoreV, seed: StoreV)
    ensures
        own.places.len() > 0 ==> shown_store(own, Some(seed)) == own,
        own.places.len() == 0 ==> shown_store(own, Some(seed)) == seed,
        shown_store(own, None) == own,
{
}

} // verus!

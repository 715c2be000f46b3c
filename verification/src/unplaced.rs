//! The photographs without a position, and the owner's profile.

use vstd::prelude::*;
use crate::json::{double_member, member, text_member, text_or, views, Double, Duplicate, Json, JsonV};
use crate::model::{
    find_place, find_unplaced, index_of, lemma_index_of, place_ids, unplaced_ids, Photo, PhotoV,
    Place, PlaceV, Profile, ProfileV, Store, StoreV, UnplacedPhoto, UnplacedPhotoV,
};
use crate::names::{clean_em, sanitize_em};
use crate::places::owned;
use crate::reply::Refusal;
use crate::text::{
    blank, chars_of, copy_opt, cut, first_chars, is_blank, join2, same, text_of, trim, trim_chars,
    trimmed,
};

verus! {

/// The photographs without a position, for the owner to see.
pub fn list_unplaced(store: &Store, owner: bool) -> (r: Result<Vec<UnplacedPhoto>, Refusal>)
    ensures
        match r {
            Ok(v) => owner && views(v@) == store@.unplaced,
            Err(e) => !owner && e == Refusal::Unauthorized,
        },
{
    if !owner {
        return Err(Refusal::Unauthorized);
    }
    Ok(crate::json::copy_vec(&store.unplaced))
}

/// A photograph that has found its place.
pub open spec fn placed(u: UnplacedPhotoV, date: Option<Seq<char>>) -> PhotoV {
    PhotoV { id: u.id, url: u.url, thumb: u.thumb, date }
}

/// The text of a member, unless it is blank.
pub open spec fn filled_member(body: JsonV, key: Seq<char>) -> Option<Seq<char>> {
    match text_member(body, key) {
        Some(s) => if blank(s) {
            None
        } else {
            Some(s)
        },
        None => None,
    }
}

/// The text of a member, unless it is blank.
fn get_filled<'a>(body: &'a Json, key: &str) -> (r: Option<&'a str>)
    ensures
        crate::text::opt_str(r) == filled_member(body@, key@),
{
    match body.get_str(key) {
        Some(s) => if is_blank(s) {
            None
        } else {
            Some(s)
        },
        None => None,
    }
}

/// The place that a request asks to make of a photograph; none if it says too little.
pub open spec fn place_for_photo(body: JsonV, u: UnplacedPhotoV, stamp: Seq<char>) -> Option<
    PlaceV,
> {
    match (
        double_member(body, "lat"@),
        double_member(body, "lng"@),
        filled_member(body, "name"@),
    ) {
        (Some(lat), Some(lng), Some(n)) => {
            let date = filled_member(body, "date"@);
            Some(
                PlaceV {
                    id: "p_"@ + stamp,
                    lng,
                    lat,
                    name: trimmed(n),
                    short: trimmed(n),
                    city: Seq::empty(),
                    country: Seq::empty(),
                    em: clean_em(text_or(body, "em"@, "📍"@)),
                    date,
                    rating: 0,
                    tags: Seq::empty(),
                    feel: Seq::empty(),
                    photos: seq![placed(u, date)],
                    cover: None,
                    status: if text_member(body, "status"@) == Some("planned"@) {
                        "planned"@
                    } else {
                        "visited"@
                    },
                    trip_id: None,
                    visits: Seq::empty(),
                    category: Seq::empty(),
                    color: None,
                    guide: JsonV::Null,
                },
            )
        },
        _ => None,
    }
}

/// A place with one more photograph.
pub open spec fn with_photo(p: PlaceV, ph: PhotoV) -> PlaceV {
    PlaceV { photos: p.photos.push(ph), ..p }
}

/// The store and the place after a photograph was given a place: one that there is, if the
/// request names one, else a new one.
pub open spec fn after_assign(
    s: StoreV,
    id: Seq<char>,
    body: JsonV,
    stamp: Seq<char>,
) -> Result<(StoreV, PlaceV), Refusal> {
    match index_of(unplaced_ids(s.unplaced), id) {
        None => Err(Refusal::UnplacedNotFound),
        Some(k) => {
            let u = s.unplaced[k];
            let left = s.unplaced.remove(k);
            match filled_member(body, "placeId"@) {
                Some(pid) => match index_of(place_ids(s.places), pid) {
                    None => Err(Refusal::PlaceNotFound),
                    Some(i) => {
                        let p = with_photo(s.places[i], placed(u, None));
                        Ok(
                            (
                                StoreV {
                                    unplaced: left,
                                    places: s.places.update(i, p),
                                    ..s
                                },
                                p,
                            ),
                        )
                    },
                },
                None => match place_for_photo(body, u, stamp) {
                    None => Err(Refusal::AssignIncomplete),
                    Some(p) => Ok(
                        (StoreV { unplaced: left, places: s.places.push(p), ..s }, p),
                    ),
                },
            }
        },
    }
}

/// The place that a request asks to make of a photograph.
fn read_place_for_photo(body: &Json, u: &UnplacedPhoto, stamp: &str) -> (r: Option<Place>)
    ensures
        match r {
            Some(p) => place_for_photo(body@, u@, stamp@) == Some(p@),
            None => place_for_photo(body@, u@, stamp@) is None,
        },
{
    let (lat, lng, name): (Double, Double, String) = match (
        body.get_double("lat"),
        body.get_double("lng"),
        get_filled(body, "name"),
    ) {
        (Some(lat), Some(lng), Some(n)) => (lat, lng, trim(n)),
        _ => return None,
    };
    let status: &str = match body.get_str("status") {
        Some(s) => if same(s, "planned") {
            "planned"
        } else {
            "visited"
        },
        None => "visited",
    };
    let date = owned(get_filled(body, "date"));
    let photo = Photo {
        id: u.id.clone(),
        url: u.url.clone(),
        thumb: u.thumb.clone(),
        date: copy_opt(&date),
    };
    let ghost meaning = photo@;
    let p = Place {
        id: join2("p_", stamp),
        lng,
        lat,
        short: name.clone(),
        name,
        city: String::new(),
        country: String::new(),
        em: sanitize_em(body.get_str_or("em", "📍")),
        date,
        rating: 0,
        tags: Vec::new(),
        feel: String::new(),
        photos: vec![photo],
        cover: None,
        status: status.to_owned(),
        trip_id: None,
        visits: Vec::new(),
        category: String::new(),
        color: None,
        guide: Json::Null,
    };
    proof {
        assert(p@.photos =~= seq![meaning]);
        assert(p@.tags =~= Seq::empty());
        assert(p@.visits =~= Seq::empty());
        assert(p@ =~= place_for_photo(body@, u@, stamp@)->0);
    }
    Some(p)
}

/// The owner gives a photograph a place. `stamp` makes the id of a new one. Where the answer is a
/// place, the store is to be written.
pub fn assign_unplaced(
    store: &mut Store,
    owner: bool,
    id: &str,
    body: &Json,
    stamp: &str,
) -> (r: Result<Place, Refusal>)
    ensures
        match r {
            Ok(p) => owner && after_assign(old(store)@, id@, body@, stamp@) == Ok::<
                (StoreV, PlaceV),
                Refusal,
            >((final(store)@, p@)),
            Err(e) => final(store)@ == old(store)@ && if owner {
                after_assign(old(store)@, id@, body@, stamp@) == Err::<(StoreV, PlaceV), Refusal>(e)
            } else {
                e == Refusal::Unauthorized
            },
        },
{
    if !owner {
        return Err(Refusal::Unauthorized);
    }
    let k: usize = match find_unplaced(&store.unplaced, id) {
        Some(k) => k,
        None => return Err(Refusal::UnplacedNotFound),
    };
    let ghost before = store@;
    assert(before.unplaced[k as int] == store.unplaced@[k as int]@);
    match get_filled(body, "placeId") {
        Some(pid) => {
            let i: usize = match find_place(&store.places, pid) {
                Some(i) => i,
                None => return Err(Refusal::PlaceNotFound),
            };
            assert(before.places[i as int] == store.places@[i as int]@);
            let u = store.unplaced.remove(k);
            assert(views(store.unplaced@) =~= before.unplaced.remove(k as int));
            let mut p = store.places[i].copy();
            let ghost whole = p@;
            let photo = Photo { id: u.id, url: u.url, thumb: u.thumb, date: None };
            let ghost meaning = photo@;
            assert(meaning =~= placed(before.unplaced[k as int], None));
            p.photos.push(photo);
            assert(views(p.photos@) =~= whole.photos.push(meaning));
            assert(p@ =~= with_photo(whole, meaning));
            let answer = p.copy();
            store.places.set(i, p);
            assert(views(store.places@) =~= before.places.update(i as int, answer@));
            assert(store@ =~= StoreV {
                unplaced: before.unplaced.remove(k as int),
                places: before.places.update(i as int, answer@),
                ..before
            });
            Ok(answer)
        },
        None => {
            let p = match read_place_for_photo(body, &store.unplaced[k], stamp) {
                Some(p) => p,
                None => return Err(Refusal::AssignIncomplete),
            };
            store.unplaced.remove(k);
            assert(views(store.unplaced@) =~= before.unplaced.remove(k as int));
            let answer = p.copy();
            store.places.push(p);
            assert(views(store.places@) =~= before.places.push(answer@));
            assert(store@ =~= StoreV {
                unplaced: before.unplaced.remove(k as int),
                places: before.places.push(answer@),
                ..before
            });
            Ok(answer)
        },
    }
}

/// Giving a photograph a place takes it, and no other, out of those without one, and puts it last
/// in the place that is the answer.
pub proof fn law_assign_moves_one(s: StoreV, id: Seq<char>, body: JsonV, stamp: Seq<char>)
    ensures
        after_assign(s, id, body, stamp) matches Ok((t, p)) ==> t.unplaced.len()
            == s.unplaced.len() - 1 && p.photos.last().id == id && t.places.contains(p) && t.trips
            == s.trips && t.messages == s.messages && t.likes == s.likes && t.places.len()
            >= s.places.len(),
{
    crate::model::lemma_index_of(unplaced_ids(s.unplaced), id);
    if let Ok((t, p)) = after_assign(s, id, body, stamp) {
        match filled_member(body, "placeId"@) {
            Some(pid) => {
                crate::model::lemma_index_of(place_ids(s.places), pid);
                let i = index_of(place_ids(s.places), pid)->0;
                assert(t.places[i] == p);
            },
            None => {
                assert(t.places[s.places.len() as int] == p);
            },
        }
    }
}

/// The owner removes a photograph without a position. The answer is its id, whose files are to be
/// removed once the store is written.
pub fn delete_unplaced(store: &mut Store, owner: bool, id: &str) -> (r: Result<String, Refusal>)
    ensures
        match r {
            Ok(gone) => {
                &&& owner
                &&& index_of(unplaced_ids(old(store)@.unplaced), id@) matches Some(k)
                &&& gone@ == id@
                &&& final(store)@ == (StoreV {
                    unplaced: old(store)@.unplaced.remove(k),
                    ..old(store)@
                })
            },
            Err(e) => final(store)@ == old(store)@ && if owner {
                e == Refusal::UnplacedNotFound && index_of(
                    unplaced_ids(old(store)@.unplaced),
                    id@,
                ) is None
            } else {
                e == Refusal::Unauthorized
            },
        },
{
    if !owner {
        return Err(Refusal::Unauthorized);
    }
    let k: usize = match find_unplaced(&store.unplaced, id) {
        Some(k) => k,
        None => return Err(Refusal::UnplacedNotFound),
    };
    let ghost before = store@;
    let removed = store.unplaced.remove(k);
    assert(views(store.unplaced@) =~= before.unplaced.remove(k as int));
    assert(store@ =~= StoreV { unplaced: before.unplaced.remove(k as int), ..before });
    Ok(removed.id)
}

/// A text of the profile after a change: without white space at its ends, cut off after `n`
/// characters.
pub open spec fn new_profile_text(
    body: JsonV,
    key: Seq<char>,
    n: nat,
    old_text: Seq<char>,
) -> Seq<char> {
    match text_member(body, key) {
        Some(s) => first_chars(trimmed(s), n),
        None => old_text,
    }
}

/// A text of the profile after a change.
fn changed_profile_text(body: &Json, key: &str, n: usize, old_text: &String) -> (r: String)
    ensures
        r@ == new_profile_text(body@, key@, n as nat, old_text@),
{
    match body.get_str(key) {
        Some(s) => text_of(&cut(&trim_chars(&chars_of(s)), n)),
        None => old_text.clone(),
    }
}

/// The profile after a change.
pub open spec fn profile_changed(p: ProfileV, body: JsonV) -> ProfileV {
    ProfileV {
        name: new_profile_text(body, "name"@, 30, p.name),
        bio: new_profile_text(body, "bio"@, 80, p.bio),
        about: new_profile_text(body, "about"@, 2000, p.about),
    }
}

/// The owner changes the profile. Where the answer is a profile, the store is to be written.
pub fn patch_profile(store: &mut Store, owner: bool, body: &Json) -> (r: Result<Profile, Refusal>)
    ensures
        match r {
            Ok(p) => owner && p@ == profile_changed(old(store)@.profile, body@) && final(store)@
                == (StoreV { profile: p@, ..old(store)@ }),
            Err(e) => !owner && e == Refusal::Unauthorized && final(store)@ == old(store)@,
        },
{
    if !owner {
        return Err(Refusal::Unauthorized);
    }
    let ghost before = store@;
    let p = Profile {
        name: changed_profile_text(body, "name", 30, &store.profile.name),
        bio: changed_profile_text(body, "bio", 80, &store.profile.bio),
        about: changed_profile_text(body, "about", 2000, &store.profile.about),
    };
    assert(p@ =~= profile_changed(before.profile, body@));
    store.profile = p.copy();
    assert(store@ =~= StoreV { profile: p@, ..before });
    Ok(p)
}

/// A profile that keeps within its limits keeps within them.
pub proof fn law_profile_is_bounded(p: ProfileV, body: JsonV)
    requires
        p.name.len() <= 30,
        p.bio.len() <= 80,
        p.about.len() <= 2000,
    ensures
        profile_changed(p, body).name.len() <= 30,
        profile_changed(p, body).bio.len() <= 80,
        profile_changed(p, body).about.len() <= 2000,
{
}

/// A photograph that was given the place a request names is the last of that place's photographs,
/// under its own id and addresses; it leaves the list of those without a place, and no other place
/// and no other photograph changes.
pub proof fn law_the_place_that_was_named(
    s: StoreV,
    id: Seq<char>,
    body: JsonV,
    stamp: Seq<char>,
    pid: Seq<char>,
    k: int,
    i: int,
)
    requires
        member(body, "placeId"@) == Some(JsonV::Text(pid)),
        trimmed(pid).len() > 0,
        0 <= k < s.unplaced.len(),
        s.unplaced[k].id == id,
        forall|j: int| 0 <= j < k ==> (#[trigger] s.unplaced[j]).id != id,
        0 <= i < s.places.len(),
        s.places[i].id == pid,
        forall|j: int| 0 <= j < i ==> (#[trigger] s.places[j]).id != pid,
    ensures
        after_assign(s, id, body, stamp) is Ok,
        ({
            let (t, p) = after_assign(s, id, body, stamp)->Ok_0;
            let q = s.places[i];
            &&& t.unplaced == s.unplaced.remove(k)
            &&& t.places == s.places.update(i, p)
            &&& p.photos.len() == q.photos.len() + 1
            &&& forall|j: int| 0 <= j < q.photos.len() ==> p.photos[j] == q.photos[j]
            &&& p.photos.last().id == id
            &&& p.photos.last().url == s.unplaced[k].url
            &&& p.photos.last().thumb == s.unplaced[k].thumb
            &&& p.photos.last().date is None
            &&& p.id == q.id
            &&& p.lng == q.lng
            &&& p.lat == q.lat
            &&& p.name == q.name
            &&& p.short == q.short
            &&& p.city == q.city
            &&& p.country == q.country
            &&& p.em == q.em
            &&& p.date == q.date
            &&& p.rating == q.rating
            &&& p.tags == q.tags
            &&& p.feel == q.feel
            &&& p.cover == q.cover
            &&& p.status == q.status
            &&& p.trip_id == q.trip_id
            &&& p.visits == q.visits
            &&& p.category == q.category
            &&& p.color == q.color
            &&& p.guide == q.guide
            &&& t.trips == s.trips && t.cities == s.cities && t.profile == s.profile
            &&& t.likes == s.likes && t.messages == s.messages && t.views == s.views
            &&& t.version == s.version
        }),
{
    lemma_position(s, id, k);
    let ids = place_ids(s.places);
    lemma_index_of(ids, pid);
    assert(ids[i] == pid);
    assert(ids.contains(pid));
    let at = index_of(ids, pid)->0;
    assert(ids[at] == s.places[at].id);
    assert(at == i);
}

/// The position of a photograph is the first with its id.
proof fn lemma_position(s: StoreV, id: Seq<char>, k: int)
    requires
        0 <= k < s.unplaced.len(),
        s.unplaced[k].id == id,
        forall|j: int| 0 <= j < k ==> (#[trigger] s.unplaced[j]).id != id,
    ensures
        index_of(unplaced_ids(s.unplaced), id) == Some(k),
{
    let ids = unplaced_ids(s.unplaced);
    lemma_index_of(ids, id);
    assert(ids[k] == id);
    assert(ids.contains(id));
    let at = index_of(ids, id)->0;
    assert(ids[at] == s.unplaced[at].id);
}

/// A place that was made by hand for a photograph stands where the request says, is called what it
/// says, has the date that it says, and holds that photograph alone. Without a position or a name
/// there is no such place.
pub proof fn law_the_place_that_was_made(
    s: StoreV,
    id: Seq<char>,
    body: JsonV,
    stamp: Seq<char>,
    k: int,
)
    requires
        text_member(body, "placeId"@) matches Some(pid) ==> trimmed(pid).len() == 0,
        0 <= k < s.unplaced.len(),
        s.unplaced[k].id == id,
        forall|j: int| 0 <= j < k ==> (#[trigger] s.unplaced[j]).id != id,
    ensures
        match (member(body, "lat"@), member(body, "lng"@), member(body, "name"@)) {
            (Some(JsonV::Number(lat)), Some(JsonV::Number(lng)), Some(JsonV::Text(name))) => trimmed(
                name,
            ).len() > 0 ==> {
                &&& after_assign(s, id, body, stamp) matches Ok((t, p))
                &&& t.unplaced == s.unplaced.remove(k)
                &&& t.places == s.places.push(p)
                &&& p.id == "p_"@ + stamp
                &&& p.lat == lat.double && p.lng == lng.double
                &&& p.name == trimmed(name) && p.short == trimmed(name)
                &&& match member(body, "date"@) {
                    Some(JsonV::Text(d)) => if trimmed(d).len() > 0 {
                        p.date == Some(d)
                    } else {
                        p.date is None
                    },
                    _ => p.date is None,
                }
                &&& p.photos.len() == 1
                &&& p.photos[0].id == id
                &&& p.photos[0].url == s.unplaced[k].url
                &&& p.photos[0].thumb == s.unplaced[k].thumb
                &&& p.photos[0].date == p.date
                &&& match member(body, "em"@) {
                    Some(JsonV::Text(e)) => p.em == clean_em(e),
                    _ => p.em == clean_em("📍"@),
                }
                &&& member(body, "status"@) == Some(JsonV::Text("planned"@)) ==> p.status
                    == "planned"@
                &&& member(body, "status"@) != Some(JsonV::Text("planned"@)) ==> p.status
                    == "visited"@
                &&& p.city.len() == 0 && p.country.len() == 0 && p.rating == 0 && p.tags.len() == 0
                &&& p.feel.len() == 0 && p.cover is None && p.trip_id is None
                &&& p.visits.len() == 0 && p.category.len() == 0 && p.color is None
                &&& p.guide is Null
                &&& t.trips == s.trips && t.cities == s.cities && t.profile == s.profile
                &&& t.likes == s.likes && t.messages == s.messages && t.views == s.views
                &&& t.version == s.version
            },
            _ => after_assign(s, id, body, stamp) == Err::<(StoreV, PlaceV), Refusal>(
                Refusal::AssignIncomplete,
            ),
        },
{
    lemma_position(s, id, k);
}

/// A photograph that is not in the list cannot be given a place, nor one be given to a place that
/// there is not.
pub proof fn law_refused_assignments(s: StoreV, id: Seq<char>, body: JsonV, stamp: Seq<char>)
    ensures
        (forall|k: int| 0 <= k < s.unplaced.len() ==> (#[trigger] s.unplaced[k]).id != id)
            ==> after_assign(s, id, body, stamp) == Err::<(StoreV, PlaceV), Refusal>(
            Refusal::UnplacedNotFound,
        ),
        (exists|k: int| 0 <= k < s.unplaced.len() && (#[trigger] s.unplaced[k]).id == id) && (
        text_member(body, "placeId"@) matches Some(pid) && trimmed(pid).len() > 0 && forall|i: int|
            0 <= i < s.places.len() ==> (#[trigger] s.places[i]).id != pid) ==> after_assign(
            s,
            id,
            body,
            stamp,
        ) == Err::<(StoreV, PlaceV), Refusal>(Refusal::PlaceNotFound),
{
    let ids = unplaced_ids(s.unplaced);
    lemma_index_of(ids, id);
    if index_of(ids, id) is Some {
        let at = index_of(ids, id)->0;
        assert(ids[at] == s.unplaced[at].id);
    }
    assert forall|k: int| 0 <= k < s.unplaced.len() && (#[trigger] s.unplaced[k]).id == id implies
        ids.contains(id) by {
        assert(ids[k] == id);
    }
    if let Some(pid) = text_member(body, "placeId"@) {
        let all = place_ids(s.places);
        lemma_index_of(all, pid);
        if index_of(all, pid) is Some {
            let at = index_of(all, pid)->0;
            assert(all[at] == s.places[at].id);
        }
    }
}

/// The name, the short and the long text of the profile are what the request gives, without white
/// space at their ends, as far as they fit: 30, 80 and 2000 characters. What it does not give stays.
pub proof fn law_the_profile_says_what_was_given(p: ProfileV, body: JsonV)
    ensures
        ({
            let q = profile_changed(p, body);
            &&& match member(body, "name"@) {
                Some(JsonV::Text(s)) => {
                    &&& trimmed(s).len() <= 30 ==> q.name == trimmed(s)
                    &&& trimmed(s).len() > 30 ==> q.name == trimmed(s).take(30)
                },
                _ => q.name == p.name,
            }
            &&& match member(body, "bio"@) {
                Some(JsonV::Text(s)) => {
                    &&& trimmed(s).len() <= 80 ==> q.bio == trimmed(s)
                    &&& trimmed(s).len() > 80 ==> q.bio == trimmed(s).take(80)
                },
                _ => q.bio == p.bio,
            }
            &&& match member(body, "about"@) {
                Some(JsonV::Text(s)) => {
                    &&& trimmed(s).len() <= 2000 ==> q.about == trimmed(s)
                    &&& trimmed(s).len() > 2000 ==> q.about == trimmed(s).take(2000)
                },
                _ => q.about == p.about,
            }
        }),
{
    if let Some(JsonV::Text(s)) = member(body, "name"@) {
        crate::text::law_cutting(trimmed(s), 30);
        assert(trimmed(s).len() > 30 ==> first_chars(trimmed(s), 30) =~= trimmed(s).take(30));
    }
    if let Some(JsonV::Text(s)) = member(body, "bio"@) {
        crate::text::law_cutting(trimmed(s), 80);
        assert(trimmed(s).len() > 80 ==> first_chars(trimmed(s), 80) =~= trimmed(s).take(80));
    }
    if let Some(JsonV::Text(s)) = member(body, "about"@) {
        crate::text::law_cutting(trimmed(s), 2000);
        assert(trimmed(s).len() > 2000 ==> first_chars(trimmed(s), 2000) =~= trimmed(s).take(2000));
    }
}

} // verus!

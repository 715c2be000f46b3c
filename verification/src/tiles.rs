//! The map's tiles and style, fetched from elsewhere, kept on disk for a while and passed on.

use vstd::prelude::*;
use crate::json::{
    elements, lemma_array, lemma_object, member, members, put, text_member, with, Double,
    Duplicate, Json, JsonV, Number,
};
use crate::text::{
    ascii_alphanumeric, chars_of, contains, contains_text, ends_in, ends_with, join2, join3,
    occurs_at, one_of, replace, replaced, same, text_of,
};

verus! {

/// The kind of a file, by the ending of its name.
pub open spec fn content_type(p: Seq<char>) -> Seq<char> {
    if ends_in(p, ".pbf"@) {
        "application/x-protobuf"@
    } else if ends_in(p, ".png"@) {
        "image/png"@
    } else if ends_in(p, ".jpg"@) || ends_in(p, ".jpeg"@) {
        "image/jpeg"@
    } else if ends_in(p, ".webp"@) {
        "image/webp"@
    } else if ends_in(p, ".json"@) {
        "application/json"@
    } else {
        "application/octet-stream"@
    }
}

/// The kind of a file, by the ending of its name.
pub fn content_type_for(p: &str) -> (r: &'static str)
    ensures
        r@ == content_type(p@),
{
    if ends_with(p, ".pbf") {
        "application/x-protobuf"
    } else if ends_with(p, ".png") {
        "image/png"
    } else if ends_with(p, ".jpg") || ends_with(p, ".jpeg") {
        "image/jpeg"
    } else if ends_with(p, ".webp") {
        "image/webp"
    } else if ends_with(p, ".json") {
        "application/json"
    } else {
        "application/octet-stream"
    }
}

/// Whether a file is one of those that are kept: tiles, glyphs and pictures.
pub open spec fn kept(p: Seq<char>) -> bool {
    ends_in(p, ".pbf"@) || ends_in(p, ".png"@) || ends_in(p, ".jpg"@) || ends_in(p, ".jpeg"@)
        || ends_in(p, ".webp"@)
}

/// A character of a file name: itself if it is a letter, a digit or one of the given, else `_`.
pub open spec fn safe_char(c: char, marks: Seq<char>) -> char {
    if ascii_alphanumeric(c) || marks.contains(c) {
        c
    } else {
        '_'
    }
}

/// A path as a file name.
pub open spec fn safe_name(s: Seq<char>, marks: Seq<char>) -> Seq<char> {
    Seq::new(s.len(), |i: int| safe_char(s[i], marks))
}

/// A path as a file name.
fn safe_name_of(s: &str, marks: &str) -> (r: String)
    ensures
        r@ == safe_name(s@, marks@),
{
    let v = chars_of(s);
    let m = chars_of(marks);
    let mut out: Vec<char> = Vec::new();
    let mut i: usize = 0;
    while i < v.len()
        invariant
            i <= v.len(),
            v@ == s@,
            m@ == marks@,
            out@ == safe_name(s@.take(i as int), marks@),
        decreases v.len() - i,
    {
        let c: char = v[i];
        let ghost before = out@;
        if crate::text::is_ascii_alphanumeric(c) || one_of(c, &m) {
            out.push(c);
        } else {
            out.push('_');
        }
        assert(out@ =~= safe_name(s@.take(i + 1), marks@));
        i = i + 1;
    }
    assert(s@.take(i as int) == s@);
    text_of(&out)
}

/// What is fetched and kept for a path.
#[derive(Debug, PartialEq, Eq)]
pub struct Tile {
    /// Where it comes from.
    pub url: String,
    /// The name of its file, in the directory of its source.
    pub file: String,
    /// Whether it is kept.
    pub kept: bool,
    /// Whether its source answers with descriptions too, whose addresses are to be replaced.
    pub described: bool,
    /// What it is passed on as.
    pub content_type: &'static str,
}

/// What is fetched for a path below `/ofm/`; none for a path that climbs.
pub fn ofm(sub: &str) -> (r: Option<Tile>)
    ensures
        match r {
            None => contains_text(sub@, ".."@),
            Some(t) => {
                &&& !contains_text(sub@, ".."@)
                &&& t.url@ == "https://tiles.openfreemap.org"@ + "/"@ + sub@
                &&& t.file@ == safe_name(sub@, "._/-"@)
                &&& t.kept == kept(sub@)
                &&& t.described
                &&& t.content_type@ == content_type(sub@)
            },
        },
{
    if contains(sub, "..") {
        return None;
    }
    let kept = ends_with(sub, ".pbf") || ends_with(sub, ".png") || ends_with(sub, ".jpg")
        || ends_with(sub, ".jpeg") || ends_with(sub, ".webp");
    Some(
        Tile {
            url: join3("https://tiles.openfreemap.org", "/", sub),
            file: safe_name_of(sub, "._/-"),
            kept,
            described: true,
            content_type: content_type_for(sub),
        },
    )
}

/// What is fetched for a path below `/carto/`; none for a path that climbs or is no picture.
pub fn carto(sub: &str) -> (r: Option<Tile>)
    ensures
        match r {
            None => contains_text(sub@, ".."@) || !ends_in(sub@, ".png"@),
            Some(t) => {
                &&& !contains_text(sub@, ".."@)
                &&& ends_in(sub@, ".png"@)
                &&& t.url@ == "https://a.basemaps.cartocdn.com/"@ + sub@
                &&& t.file@ == safe_name(sub@, "._/-@"@)
                &&& t.kept
                &&& !t.described
                &&& t.content_type@ == "image/png"@
            },
        },
{
    if contains(sub, "..") || !ends_with(sub, ".png") {
        return None;
    }
    Some(
        Tile {
            url: join2("https://a.basemaps.cartocdn.com/", sub),
            file: safe_name_of(sub, "._/-@"),
            kept: true,
            described: false,
            content_type: "image/png",
        },
    )
}

/// The file of a path holds only the characters that it may, and climbs no more than the path
/// does.
pub proof fn law_tile_files_stay_below(s: Seq<char>, marks: Seq<char>)
    ensures
        safe_name(s, marks).len() == s.len(),
        forall|i: int|
            0 <= i < s.len() ==> {
                let c = #[trigger] safe_name(s, marks)[i];
                ascii_alphanumeric(c) || marks.contains(c) || c == '_'
            },
        !contains_text(s, ".."@) ==> !contains_text(safe_name(s, marks), ".."@),
{
    reveal_strlit("..");
    let t = safe_name(s, marks);
    if contains_text(t, ".."@) {
        let i = choose|i: int| occurs_at(t, ".."@, i);
        let w = t.subrange(i, i + 2);
        assert(w == ".."@);
        assert(w[0] == '.' && w[1] == '.');
        assert(t[i] == '.' && t[i + 1] == '.');
        assert(s.subrange(i, i + 2) =~= ".."@);
        assert(occurs_at(s, ".."@, i));
    }
}

/// A text in which the addresses of the tile server are replaced by the site's own.
pub open spec fn own_addresses(s: Seq<char>) -> Seq<char> {
    replaced(s, "https://tiles.openfreemap.org/"@, "/ofm/"@)
}

/// Replaces the addresses of the tile server by the site's own.
pub fn with_own_addresses(s: &str) -> (r: String)
    ensures
        r@ == own_addresses(s@),
{
    proof {
        reveal_strlit("https://tiles.openfreemap.org/");
    }
    replace(s, "https://tiles.openfreemap.org/", "/ofm/")
}

/// Whether an answer of the tile server is a description, whose addresses are to be replaced, by
/// its content type.
pub fn is_description(content_type: &str) -> (r: bool)
    ensures
        r == contains_text(content_type@, "json"@),
{
    contains(content_type, "json")
}

/// What has happened on the way of a tile to the browser.
pub enum TileEvent<'a> {
    /// It was asked for.
    Asked,
    /// Its file was looked for on disk, and read or not.
    Disk { read: bool },
    /// Its source could not be reached.
    Unreachable,
    /// Its source has answered, with success or not, and with this content type.
    Answer { success: bool, content_type: &'a str },
    /// The body of an answer of this content type was read or not.
    Body { content_type: &'a str, read: bool },
}

/// What is to be done next about a tile.
#[derive(Clone, Copy, Debug, PartialEq, Eq, Structural)]
pub enum TileStep {
    /// Its file is to be read from disk.
    ReadDisk,
    /// Its source is to be asked.
    Fetch,
    /// The body of the answer is to be read, as bytes.
    ReadBytes,
    /// The body of the answer is to be read, as text; what cannot be read is the empty text.
    ReadText,
    /// What was read is to be passed on.
    PassOn,
    /// What was read is to be kept on disk and passed on.
    KeepAndPassOn,
    /// What was read is to be passed on with the addresses replaced.
    Rewrite,
    /// The request is refused: the source gave nothing to pass on.
    Refuse,
}

/// Whether an answer with this content type is a description, from the source of this tile.
pub open spec fn describes(tile: Tile, content_type: Seq<char>) -> bool {
    tile.described && contains_text(content_type, "json"@)
}

/// What is to be done about a tile after something has happened.
pub open spec fn step_after(tile: Tile, event: TileEvent) -> TileStep {
    match event {
        TileEvent::Asked => if tile.kept {
            TileStep::ReadDisk
        } else {
            TileStep::Fetch
        },
        TileEvent::Disk { read } => if tile.kept && read {
            TileStep::PassOn
        } else {
            TileStep::Fetch
        },
        TileEvent::Unreachable => TileStep::Refuse,
        TileEvent::Answer { success, content_type } => if !success {
            TileStep::Refuse
        } else if describes(tile, content_type@) {
            TileStep::ReadText
        } else {
            TileStep::ReadBytes
        },
        TileEvent::Body { content_type, read } => if describes(tile, content_type@) {
            TileStep::Rewrite
        } else if !read {
            TileStep::Refuse
        } else if tile.kept {
            TileStep::KeepAndPassOn
        } else {
            TileStep::PassOn
        },
    }
}

/// What is to be done about a tile after something has happened. What is kept is read from disk
/// first; only where it is not there is its source asked.
pub fn tile_step(tile: &Tile, event: TileEvent) -> (r: TileStep)
    ensures
        r == step_after(*tile, event),
{
    match event {
        TileEvent::Asked => if tile.kept {
            TileStep::ReadDisk
        } else {
            TileStep::Fetch
        },
        TileEvent::Disk { read } => if tile.kept && read {
            TileStep::PassOn
        } else {
            TileStep::Fetch
        },
        TileEvent::Unreachable => TileStep::Refuse,
        TileEvent::Answer { success, content_type } => if !success {
            TileStep::Refuse
        } else if tile.described && is_description(content_type) {
            TileStep::ReadText
        } else {
            TileStep::ReadBytes
        },
        TileEvent::Body { content_type, read } => if tile.described && is_description(
            content_type,
        ) {
            TileStep::Rewrite
        } else if !read {
            TileStep::Refuse
        } else if tile.kept {
            TileStep::KeepAndPassOn
        } else {
            TileStep::PassOn
        },
    }
}

/// A tile that is kept is looked for on disk first, and passed on from there without its source
/// being asked.
pub proof fn law_kept_tiles_are_not_fetched(tile: Tile)
    requires
        tile.kept,
    ensures
        step_after(tile, TileEvent::Asked) == TileStep::ReadDisk,
        step_after(tile, TileEvent::Disk { read: true }) == TileStep::PassOn,
        step_after(tile, TileEvent::Disk { read: false }) == TileStep::Fetch,
{
}

/// Nothing is kept but the whole body of an answer of which files are kept and which is no
/// description; and an answer that is no success is neither kept nor passed on.
pub proof fn law_only_tiles_are_kept(tile: Tile, event: TileEvent)
    ensures
        step_after(tile, event) is KeepAndPassOn ==> {
            &&& tile.kept
            &&& event matches TileEvent::Body { content_type, read }
            &&& read
            &&& !describes(tile, content_type@)
        },
        event matches TileEvent::Answer { success, .. } ==> (!success <==> step_after(tile, event)
            is Refuse),
{
}

/// The address of the style of the vector map.
pub fn style_url(style: &str) -> (r: String)
    ensures
        r@ == "https://tiles.openfreemap.org"@ + "/styles/"@ + style@,
{
    join3("https://tiles.openfreemap.org", "/styles/", style)
}

/// A text as JSON.
fn text(s: &str) -> (r: Json)
    ensures
        r@ == JsonV::Text(s@),
{
    Json::Text(s.to_owned())
}

/// A pair of texts as JSON.
fn pair(a: &str, b: &str) -> (r: Json)
    ensures
        r@ == JsonV::Array(seq![JsonV::Text(a@), JsonV::Text(b@)]),
{
    let v: Vec<Json> = vec![text(a), text(b)];
    proof {
        lemma_array(v);
        assert(elements(v@) =~= seq![JsonV::Text(a@), JsonV::Text(b@)]);
    }
    Json::Array(v)
}

/// An object of one member.
fn single(key: &str, value: Json) -> (r: Json)
    ensures
        r@ == JsonV::Object(seq![(key@, value@)]),
{
    let ghost meaning = value@;
    let v: Vec<(String, Json)> = vec![(key.to_owned(), value)];
    proof {
        lemma_object(v);
        assert(members(v@) =~= seq![(key@, meaning)]);
    }
    Json::Object(v)
}

/// A list of one value.
fn list_of(value: Json) -> (r: Json)
    ensures
        r@ == JsonV::Array(seq![value@]),
{
    let ghost meaning = value@;
    let v: Vec<Json> = vec![value];
    proof {
        lemma_array(v);
        assert(elements(v@) =~= seq![meaning]);
    }
    Json::Array(v)
}

/// An expression for the member of a feature with the given name.
pub open spec fn get_member(name: Seq<char>) -> JsonV {
    JsonV::Array(seq![JsonV::Text("get"@), JsonV::Text(name)])
}

/// The label of a feature: its Chinese name, or else the one in Latin letters, or else its own.
pub open spec fn chinese_label() -> JsonV {
    JsonV::Array(
        seq![
            JsonV::Text("coalesce"@),
            get_member("name:zh-Hans"@),
            get_member("name:zh"@),
            get_member("name:zh-Hant"@),
            get_member("name:latin"@),
            get_member("name"@),
        ],
    )
}

/// The label of a feature.
pub fn chinese_text_field() -> (r: Json)
    ensures
        r@ == chinese_label(),
{
    let v: Vec<Json> = vec![
        text("coalesce"),
        pair("get", "name:zh-Hans"),
        pair("get", "name:zh"),
        pair("get", "name:zh-Hant"),
        pair("get", "name:latin"),
        pair("get", "name"),
    ];
    proof {
        lemma_array(v);
        assert(elements(v@) =~= chinese_label()->Array_0);
    }
    Json::Array(v)
}

/// A layer of a style, its labels in Chinese if it has labels.
pub open spec fn localized_layer(layer: JsonV) -> JsonV {
    if text_member(layer, "type"@) == Some("symbol"@) {
        match member(layer, "layout"@) {
            Some(layout) => if member(layout, "text-field"@) is Some {
                put(layer, "layout"@, put(layout, "text-field"@, chinese_label()))
            } else {
                layer
            },
            None => layer,
        }
    } else {
        layer
    }
}

/// A style with labels in Chinese.
pub open spec fn localized(style: JsonV) -> JsonV {
    match member(style, "layers"@) {
        Some(JsonV::Array(s)) => put(
            style,
            "layers"@,
            JsonV::Array(Seq::new(s.len(), |i: int| localized_layer(s[i]))),
        ),
        _ => style,
    }
}

/// A layer of a style, its labels in Chinese if it has labels.
fn localize_layer(layer: &Json) -> (r: Json)
    ensures
        r@ == localized_layer(layer@),
{
    let is_symbol = match layer.get_str("type") {
        Some(t) => same(t, "symbol"),
        None => false,
    };
    if is_symbol {
        match layer.get("layout") {
            Some(layout) => {
                if layout.get("text-field").is_some() {
                    return with(layer, "layout", with(layout, "text-field", chinese_text_field()));
                }
            },
            None => {},
        }
    }
    layer.copy()
}

/// A style with labels in Chinese.
pub fn localize(style: &Json) -> (r: Json)
    ensures
        r@ == localized(style@),
{
    match style.get("layers") {
        Some(Json::Array(v)) => {
            proof {
                lemma_array(*v);
            }
            let ghost s = elements(v@);
            let mut out: Vec<Json> = Vec::new();
            let mut i: usize = 0;
            while i < v.len()
                invariant
                    i <= v.len(),
                    s == elements(v@),
                    out@.len() == i,
                    forall|k: int| 0 <= k < i ==> (#[trigger] out@[k])@ == localized_layer(s[k]),
                decreases v.len() - i,
            {
                assert(s[i as int] == v@[i as int]@);
                out.push(localize_layer(&v[i]));
                i = i + 1;
            }
            proof {
                lemma_array(out);
                assert(elements(out@) =~= Seq::new(s.len(), |k: int| localized_layer(s[k])));
            }
            with(style, "layers", Json::Array(out))
        },
        _ => style.copy(),
    }
}

/// Translating the labels of a style twice is translating them once.
pub proof fn law_localizing_is_idempotent(style: JsonV)
    ensures
        localized(localized(style)) == localized(style),
{
    if let Some(JsonV::Array(s)) = member(style, "layers"@) {
        let t = Seq::new(s.len(), |i: int| localized_layer(s[i]));
        let value = JsonV::Array(t);
        lemma_put_twice(style, "layers"@, value);
        assert forall|i: int| 0 <= i < t.len() implies localized_layer(#[trigger] t[i]) == t[i] by {
            lemma_layer_twice(s[i]);
        }
        assert(Seq::new(t.len(), |i: int| localized_layer(t[i])) =~= t);
    }
}

/// Translating a layer twice is translating it once.
proof fn lemma_layer_twice(layer: JsonV)
    ensures
        localized_layer(localized_layer(layer)) == localized_layer(layer),
{
    let once = localized_layer(layer);
    if once != layer {
        let layout = member(layer, "layout"@)->0;
        let inner = put(layout, "text-field"@, chinese_label());
        lemma_put_twice(layer, "layout"@, inner);
        lemma_put_twice(layout, "text-field"@, chinese_label());
        reveal_strlit("type");
        reveal_strlit("layout");
        assert("type"@.len() == 4 && "layout"@.len() == 6);
        crate::json::lemma_put(layer, "layout"@, inner, "type"@);
    }
}

/// A member that was put into an object is found, and putting it again changes nothing.
proof fn lemma_put_twice(v: JsonV, key: Seq<char>, value: JsonV)
    requires
        v is Object,
    ensures
        member(put(v, key, value), key) == Some(value),
        put(put(v, key, value), key, value) == put(v, key, value),
{
    crate::json::lemma_put(v, key, value, key);
    lemma_with_twice(v->Object_0, key, value);
}

proof fn lemma_with_twice(o: crate::json::Members, key: Seq<char>, value: JsonV)
    ensures
        crate::json::with_member(crate::json::with_member(o, key, value), key, value)
            == crate::json::with_member(o, key, value),
    decreases o.len(),
{
    reveal_with_fuel(crate::json::with_member, 2);
    let w = crate::json::with_member(o, key, value);
    if o.len() == 0 {
        assert(w.drop_first() =~= Seq::empty());
        assert(crate::json::with_member(w, key, value) =~= w);
    } else if o[0].0 == key {
        assert(w.drop_first() =~= o.drop_first());
    } else {
        lemma_with_twice(o.drop_first(), key, value);
        assert(w.drop_first() =~= crate::json::with_member(o.drop_first(), key, value));
    }
}

/// A number as JSON, given as an integer and as the bits of a double.
pub open spec fn number(n: u64, bits: u64) -> JsonV {
    JsonV::Number(Number { unsigned: Some(n), signed: Some(n as i64), double: Double { bits } })
}

/// A number as JSON.
fn number_of(n: u64, bits: u64) -> (r: Json)
    requires
        n <= i64::MAX,
    ensures
        r@ == number(n, bits),
{
    Json::Number(Number { unsigned: Some(n), signed: Some(n as i64), double: Double { bits } })
}

/// The source of the picture map.
pub open spec fn carto_source() -> JsonV {
    JsonV::Object(
        seq![
            ("type"@, JsonV::Text("raster"@)),
            (
                "tiles"@,
                JsonV::Array(
                    seq![JsonV::Text("/carto/rastertiles/voyager/{z}/{x}/{y}@2x.png"@)],
                ),
            ),
            ("tileSize"@, number(512, 0x4080_0000_0000_0000)),
            ("maxzoom"@, number(19, 0x4033_0000_0000_0000)),
            ("attribution"@, JsonV::Text("© OpenStreetMap contributors © CARTO"@)),
        ],
    )
}

/// The source of the picture map.
fn carto_source_json() -> (r: Json)
    ensures
        r@ == carto_source(),
{
    let v: Vec<(String, Json)> = vec![
        ("type".to_owned(), text("raster")),
        ("tiles".to_owned(), list_of(text("/carto/rastertiles/voyager/{z}/{x}/{y}@2x.png"))),
        ("tileSize".to_owned(), number_of(512, 0x4080_0000_0000_0000)),
        ("maxzoom".to_owned(), number_of(19, 0x4033_0000_0000_0000)),
        ("attribution".to_owned(), text("© OpenStreetMap contributors © CARTO")),
    ];
    proof {
        lemma_object(v);
        assert(members(v@) =~= carto_source()->Object_0);
    }
    Json::Object(v)
}

/// The layers of the picture map.
pub open spec fn raster_layers() -> JsonV {
    JsonV::Array(
        seq![
            JsonV::Object(
                seq![
                    ("id"@, JsonV::Text("bg"@)),
                    ("type"@, JsonV::Text("background"@)),
                    (
                        "paint"@,
                        JsonV::Object(seq![("background-color"@, JsonV::Text("#e8ecef"@))]),
                    ),
                ],
            ),
            JsonV::Object(
                seq![
                    ("id"@, JsonV::Text("carto"@)),
                    ("type"@, JsonV::Text("raster"@)),
                    ("source"@, JsonV::Text("carto"@)),
                ],
            ),
        ],
    )
}

/// An object of three members.
fn triple(a: &str, x: Json, b: &str, y: Json, c: &str, z: Json) -> (r: Json)
    ensures
        r@ == JsonV::Object(seq![(a@, x@), (b@, y@), (c@, z@)]),
{
    let ghost meaning = seq![(a@, x@), (b@, y@), (c@, z@)];
    let v: Vec<(String, Json)> = vec![(a.to_owned(), x), (b.to_owned(), y), (c.to_owned(), z)];
    proof {
        lemma_object(v);
        assert(members(v@) =~= meaning);
    }
    Json::Object(v)
}

/// The layers of the picture map.
fn raster_layers_json() -> (r: Json)
    ensures
        r@ == raster_layers(),
{
    let v: Vec<Json> = vec![
        triple(
            "id",
            text("bg"),
            "type",
            text("background"),
            "paint",
            single("background-color", text("#e8ecef")),
        ),
        triple("id", text("carto"), "type", text("raster"), "source", text("carto")),
    ];
    proof {
        lemma_array(v);
        assert(elements(v@) =~= raster_layers()->Array_0);
    }
    Json::Array(v)
}

/// The style of the picture map: one source of tiles, on a plain ground.
pub fn raster_style() -> (r: Json)
    ensures
        r@ == JsonV::Object(
            seq![
                ("version"@, number(8, 0x4020_0000_0000_0000)),
                ("name"@, JsonV::Text("voyager-raster"@)),
                ("sources"@, JsonV::Object(seq![("carto"@, carto_source())])),
                ("layers"@, raster_layers()),
            ],
        ),
{
    let v: Vec<(String, Json)> = vec![
        ("version".to_owned(), number_of(8, 0x4020_0000_0000_0000)),
        ("name".to_owned(), text("voyager-raster")),
        ("sources".to_owned(), single("carto", carto_source_json())),
        ("layers".to_owned(), raster_layers_json()),
    ];
    proof {
        lemma_object(v);
        assert(members(v@) =~= seq![
            ("version"@, number(8, 0x4020_0000_0000_0000)),
            ("name"@, JsonV::Text("voyager-raster"@)),
            ("sources"@, JsonV::Object(seq![("carto"@, carto_source())])),
            ("layers"@, raster_layers()),
        ]);
    }
    Json::Object(v)
}

/// Whether the kept tiles are to be counted after this write, given how many writes there were
/// before it: after every five hundredth.
pub fn prune_is_due(writes: u64) -> (r: bool)
    ensures
        r == (writes % 500 == 0),
{
    writes % 500 == 0
}

/// A file that is kept: its size in bytes, and when it was written.
#[derive(Clone, Copy, Debug, PartialEq, Eq, Structural)]
pub struct Kept {
    pub size: u64,
    /// Nanoseconds since 1970.
    pub time: i128,
}

/// The bytes in the files that are marked as given.
pub open spec fn bytes_marked(files: Seq<Kept>, marks: Seq<bool>, mark: bool) -> nat
    decreases files.len(),
{
    if files.len() == 0 {
        0
    } else {
        bytes_marked(files.drop_last(), marks, mark) + if marks[files.len() - 1] == mark {
            files.last().size as nat
        } else {
            0
        }
    }
}

/// The bytes in all files.
pub open spec fn bytes_in(files: Seq<Kept>) -> nat
    decreases files.len(),
{
    if files.len() == 0 {
        0
    } else {
        bytes_in(files.drop_last()) + files.last().size as nat
    }
}

/// Whether the `i`-th file is the next to go: the oldest of those that were not tried, and of two
/// of one age the one that is listed first.
pub open spec fn next_to_go(files: Seq<Kept>, tried: Seq<bool>, i: int) -> bool {
    &&& 0 <= i < files.len()
    &&& !tried[i]
    &&& forall|j: int|
        0 <= j < files.len() && !(#[trigger] tried[j]) && j != i ==> files[i].time < files[j].time
            || files[i].time == files[j].time && i < j
}

/// The removal of old files, step by step, until what is kept is no more than a number of bytes.
pub struct Pruning {
    files: Vec<Kept>,
    tried: Vec<bool>,
    total: u128,
    freed: u128,
    cap: u64,
}

impl Pruning {
    /// The files.
    pub closed spec fn files(self) -> Seq<Kept> {
        self.files@
    }

    /// For each file, whether its removal was tried.
    pub closed spec fn tried(self) -> Seq<bool> {
        self.tried@
    }

    /// How many bytes were freed.
    pub closed spec fn freed(self) -> nat {
        self.freed as nat
    }

    /// How many bytes may stay.
    pub closed spec fn cap(self) -> nat {
        self.cap as nat
    }

    /// How many bytes are kept still.
    pub open spec fn left(self) -> int {
        bytes_in(self.files()) - self.freed()
    }

    /// Whether every removal that was tried succeeded.
    pub open spec fn all_went(self) -> bool {
        self.freed() == bytes_marked(self.files(), self.tried(), true)
    }

    /// A pruning that was begun.
    pub closed spec fn wf(self) -> bool {
        &&& self.tried@.len() == self.files@.len()
        &&& self.total == bytes_in(self.files@)
        &&& self.freed <= bytes_marked(self.files@, self.tried@, true)
    }

    /// Begins a pruning.
    pub fn new(files: Vec<Kept>, cap: u64) -> (r: Pruning)
        ensures
            r.wf(),
            r.files() == files@,
            r.tried() == Seq::new(files@.len(), |i: int| false),
            r.freed() == 0,
            r.cap() == cap,
            r.all_went(),
    {
        let mut tried: Vec<bool> = Vec::new();
        let mut total: u128 = 0;
        let mut i: usize = 0;
        while i < files.len()
            invariant
                i <= files.len(),
                tried@ == Seq::new(i as nat, |k: int| false),
                total == bytes_in(files@.take(i as int)),
                total <= i * 0xffff_ffff_ffff_ffff,
            decreases files.len() - i,
        {
            assert(files@.take(i + 1).drop_last() == files@.take(i as int));
            assert(i * 0xffff_ffff_ffff_ffff <= 0xffff_ffff_ffff_ffff * 0xffff_ffff_ffff_ffff)
                by (nonlinear_arith)
                requires
                    i <= 0xffff_ffff_ffff_ffff,
            ;
            assert((i + 1) * 0xffff_ffff_ffff_ffff == i * 0xffff_ffff_ffff_ffff
                + 0xffff_ffff_ffff_ffff) by (nonlinear_arith);
            total = total + files[i].size as u128;
            tried.push(false);
            assert(tried@ =~= Seq::new((i + 1) as nat, |k: int| false));
            i = i + 1;
        }
        assert(files@.take(i as int) == files@);
        proof {
            lemma_none_marked(files@, tried@);
        }
        Pruning { files, tried, total, freed: 0, cap }
    }

    /// The file to remove next: none if what is kept is little enough, or nothing is left to try.
    pub fn next(&self) -> (r: Option<usize>)
        requires
            self.wf(),
        ensures
            match r {
                Some(i) => self.left() > self.cap() && next_to_go(
                    self.files(),
                    self.tried(),
                    i as int,
                ),
                None => self.left() <= self.cap() || forall|j: int|
                    0 <= j < self.files().len() ==> self.tried()[j],
            },
            r is None && self.all_went() ==> self.left() <= self.cap(),
    {
        proof {
            lemma_marked_sum(self.files@, self.tried@);
        }
        if self.total - self.freed <= self.cap as u128 {
            return None;
        }
        let mut best: Option<usize> = None;
        let mut i: usize = 0;
        while i < self.files.len()
            invariant
                i <= self.files.len(),
                self.wf(),
                match best {
                    None => forall|j: int| 0 <= j < i ==> self.tried@[j],
                    Some(b) => b < i && !self.tried@[b as int] && forall|j: int|
                        0 <= j < i && !(#[trigger] self.tried@[j]) && j != b
                            ==> self.files@[b as int].time < self.files@[j].time
                            || self.files@[b as int].time == self.files@[j].time && b < j,
                },
            decreases self.files.len() - i,
        {
            if !self.tried[i] {
                best = match best {
                    None => Some(i),
                    Some(b) => if self.files[i].time < self.files[b].time {
                        Some(i)
                    } else {
                        Some(b)
                    },
                };
            }
            i = i + 1;
        }
        proof {
            if best is None {
                lemma_all_marked(self.files@, self.tried@);
            }
        }
        best
    }

    /// Takes note of an attempt to remove a file.
    pub fn note(&mut self, i: usize, removed: bool)
        requires
            old(self).wf(),
            i < old(self).files().len(),
            !old(self).tried()[i as int],
        ensures
            final(self).wf(),
            final(self).files() == old(self).files(),
            final(self).cap() == old(self).cap(),
            final(self).tried() == old(self).tried().update(i as int, true),
            final(self).freed() == old(self).freed() + if removed {
                old(self).files()[i as int].size as nat
            } else {
                0
            },
            removed && old(self).all_went() ==> final(self).all_went(),
    {
        proof {
            lemma_mark(self.files@, self.tried@, i as int);
            lemma_marked_sum(self.files@, self.tried@.update(i as int, true));
        }
        if removed {
            self.freed = self.freed + self.files[i].size as u128;
        }
        self.tried.set(i, true);
    }

    /// How many megabytes were freed, and how many are kept still.
    pub fn megabytes(&self) -> (r: (u128, u128))
        requires
            self.wf(),
        ensures
            r.0 == self.freed() / 0x10_0000,
            r.1 == self.left() / 0x10_0000,
    {
        proof {
            lemma_marked_sum(self.files@, self.tried@);
        }
        (self.freed / 0x10_0000, (self.total - self.freed) / 0x10_0000)
    }
}

/// Files are marked or not.
proof fn lemma_marked_sum(files: Seq<Kept>, marks: Seq<bool>)
    ensures
        bytes_marked(files, marks, true) + bytes_marked(files, marks, false) == bytes_in(files),
    decreases files.len(),
{
    if files.len() > 0 {
        lemma_marked_sum(files.drop_last(), marks);
    }
}

/// Marking one more file adds its size.
proof fn lemma_mark(files: Seq<Kept>, marks: Seq<bool>, i: int)
    requires
        files.len() <= marks.len(),
        0 <= i < marks.len(),
        !marks[i],
    ensures
        bytes_marked(files, marks.update(i, true), true) == bytes_marked(files, marks, true)
            + if i < files.len() {
            files[i].size as nat
        } else {
            0
        },
    decreases files.len(),
{
    if files.len() > 0 {
        lemma_mark(files.drop_last(), marks, i);
        if i < files.len() - 1 {
            assert(files.drop_last()[i] == files[i]);
        }
    }
}

/// Where every file is marked, all bytes are.
proof fn lemma_all_marked(files: Seq<Kept>, marks: Seq<bool>)
    requires
        files.len() <= marks.len(),
        forall|j: int| 0 <= j < files.len() ==> marks[j],
    ensures
        bytes_marked(files, marks, true) == bytes_in(files),
    decreases files.len(),
{
    if files.len() > 0 {
        lemma_all_marked(files.drop_last(), marks);
    }
}

/// Where no file is marked, no bytes are.
proof fn lemma_none_marked(files: Seq<Kept>, marks: Seq<bool>)
    requires
        files.len() <= marks.len(),
        forall|j: int| 0 <= j < files.len() ==> !marks[j],
    ensures
        bytes_marked(files, marks, true) == 0,
    decreases files.len(),
{
    if files.len() > 0 {
        lemma_none_marked(files.drop_last(), marks);
    }
}

/// When a pruning has nothing more to remove and every removal succeeded, no more is kept than
/// may be.
pub proof fn law_pruning_reaches_the_cap(p: Pruning)
    requires
        p.wf(),
        p.all_went(),
        forall|i: int| !next_to_go(p.files(), p.tried(), i),
    ensures
        p.left() <= p.cap(),
{
    if exists|j: int| 0 <= j < p.files().len() && !p.tried()[j] {
        let j = choose|j: int| 0 <= j < p.files().len() && !p.tried()[j];
        lemma_some_next(p.files(), p.tried(), j);
    }
    lemma_all_marked(p.files@, p.tried@);
}

/// While a file was not tried, there is a next one.
proof fn lemma_some_next(files: Seq<Kept>, tried: Seq<bool>, j: int)
    requires
        files.len() == tried.len(),
        0 <= j < files.len(),
        !tried[j],
    ensures
        exists|i: int| next_to_go(files, tried, i),
    decreases files.len(),
{
    let front = files.drop_last();
    let marks = tried.drop_last();
    let last = files.len() - 1;
    if exists|k: int| 0 <= k < front.len() && !marks[k] {
        let k = choose|k: int| 0 <= k < front.len() && !marks[k];
        lemma_some_next(front, marks, k);
        let b = choose|i: int| next_to_go(front, marks, i);
        assert forall|m: int| 0 <= m < last && !(#[trigger] tried[m]) && m != b implies files[b].time
            < files[m].time || files[b].time == files[m].time && b < m by {
            assert(!marks[m]);
            assert(front[m] == files[m]);
        }
        assert(!tried[b]);
        if !tried[last] && files[last].time < files[b].time {
            assert(next_to_go(files, tried, last));
        } else {
            assert(next_to_go(files, tried, b));
        }
    } else {
        assert forall|m: int| 0 <= m < last implies tried[m] by {
            assert(marks[m]);
        }
        assert(next_to_go(files, tried, last));
    }
}

/// The kind of a file is told by its ending, and so is whether it is kept: tiles, glyphs and
/// pictures are, descriptions are not.
pub proof fn law_endings_tell_the_kind(p: Seq<char>)
    ensures
        content_type(p + ".pbf"@) == "application/x-protobuf"@,
        content_type(p + ".png"@) == "image/png"@,
        content_type(p + ".jpg"@) == "image/jpeg"@,
        content_type(p + ".jpeg"@) == "image/jpeg"@,
        content_type(p + ".webp"@) == "image/webp"@,
        content_type(p + ".json"@) == "application/json"@,
        p.len() > 0 && p.last() != 'f' && p.last() != 'g' && p.last() != 'p' && p.last() != 'n'
            ==> content_type(p) == "application/octet-stream"@,
        kept(p + ".pbf"@),
        kept(p + ".png"@),
        kept(p + ".jpg"@),
        kept(p + ".jpeg"@),
        kept(p + ".webp"@),
        !kept(p + ".json"@),
        p.len() > 0 && p.last() != 'f' && p.last() != 'g' && p.last() != 'p' ==> !kept(p),
{
    reveal_strlit(".pbf");
    reveal_strlit(".png");
    reveal_strlit(".jpg");
    reveal_strlit(".jpeg");
    reveal_strlit(".webp");
    reveal_strlit(".json");
    lemma_ending(p, ".pbf"@);
    lemma_ending(p, ".png"@);
    lemma_ending(p, ".jpg"@);
    lemma_ending(p, ".jpeg"@);
    lemma_ending(p, ".webp"@);
    lemma_ending(p, ".json"@);
    lemma_other_endings(p + ".pbf"@);
    lemma_other_endings(p + ".png"@);
    lemma_other_endings(p + ".jpg"@);
    lemma_other_endings(p + ".jpeg"@);
    lemma_other_endings(p + ".webp"@);
    lemma_other_endings(p + ".json"@);
    lemma_other_endings(p);
}

/// A text with an ending ends in it.
proof fn lemma_ending(p: Seq<char>, e: Seq<char>)
    requires
        e.len() > 0,
    ensures
        ends_in(p + e, e),
        (p + e).last() == e.last(),
        e.len() >= 2 ==> (p + e)[(p + e).len() - 2] == e[e.len() - 2],
        e.len() >= 3 ==> (p + e)[(p + e).len() - 3] == e[e.len() - 3],
{
    crate::text::law_beginnings_and_ends(e, p, p);
}

/// The last characters tell the endings apart.
proof fn lemma_other_endings(p: Seq<char>)
    ensures
        ends_in(p, ".pbf"@) ==> p.len() >= 4 && p.last() == 'f' && p[p.len() - 2] == 'b'
            && p[p.len() - 3] == 'p',
        ends_in(p, ".png"@) ==> p.len() >= 4 && p.last() == 'g' && p[p.len() - 2] == 'n'
            && p[p.len() - 3] == 'p',
        ends_in(p, ".jpg"@) ==> p.len() >= 4 && p.last() == 'g' && p[p.len() - 2] == 'p'
            && p[p.len() - 3] == 'j',
        ends_in(p, ".jpeg"@) ==> p.len() >= 5 && p.last() == 'g' && p[p.len() - 2] == 'e'
            && p[p.len() - 3] == 'p',
        ends_in(p, ".webp"@) ==> p.len() >= 5 && p.last() == 'p' && p[p.len() - 2] == 'b'
            && p[p.len() - 3] == 'e',
        ends_in(p, ".json"@) ==> p.len() >= 5 && p.last() == 'n' && p[p.len() - 2] == 'o'
            && p[p.len() - 3] == 's',
{
    reveal_strlit(".pbf");
    reveal_strlit(".png");
    reveal_strlit(".jpg");
    reveal_strlit(".jpeg");
    reveal_strlit(".webp");
    reveal_strlit(".json");
    if ends_in(p, ".pbf"@) {
        let tail = p.skip(p.len() - 4);
        assert(tail[3] == p[p.len() - 1] && tail[2] == p[p.len() - 2]);
        assert(tail[1] == p[p.len() - 3]);
    }
    if ends_in(p, ".png"@) {
        let tail = p.skip(p.len() - 4);
        assert(tail[3] == p[p.len() - 1] && tail[2] == p[p.len() - 2]);
        assert(tail[1] == p[p.len() - 3]);
    }
    if ends_in(p, ".jpg"@) {
        let tail = p.skip(p.len() - 4);
        assert(tail[3] == p[p.len() - 1] && tail[2] == p[p.len() - 2]);
        assert(tail[1] == p[p.len() - 3]);
    }
    if ends_in(p, ".jpeg"@) {
        let tail = p.skip(p.len() - 5);
        assert(tail[4] == p[p.len() - 1] && tail[3] == p[p.len() - 2]);
        assert(tail[2] == p[p.len() - 3]);
    }
    if ends_in(p, ".webp"@) {
        let tail = p.skip(p.len() - 5);
        assert(tail[4] == p[p.len() - 1] && tail[3] == p[p.len() - 2]);
        assert(tail[2] == p[p.len() - 3]);
    }
    if ends_in(p, ".json"@) {
        let tail = p.skip(p.len() - 5);
        assert(tail[4] == p[p.len() - 1] && tail[3] == p[p.len() - 2]);
        assert(tail[2] == p[p.len() - 3]);
    }
}

/// A file is called as its path is, letter by letter, but for characters that a file name should not
/// have.
pub proof fn law_file_names(s: Seq<char>, marks: Seq<char>, i: int)
    requires
        0 <= i < s.len(),
    ensures
        safe_name(s, marks).len() == s.len(),
        'a' <= s[i] <= 'z' || 'A' <= s[i] <= 'Z' || '0' <= s[i] <= '9' || marks.contains(s[i])
            ==> safe_name(s, marks)[i] == s[i],
        !('a' <= s[i] <= 'z' || 'A' <= s[i] <= 'Z' || '0' <= s[i] <= '9' || marks.contains(s[i]))
            ==> safe_name(s, marks)[i] == '_',
{
    crate::text::law_letters_and_digits(s[i]);
}

/// An answer that cannot be had is refused; one that was read is passed on, kept if tiles of its
/// kind are, and with the addresses replaced if it is a description.
pub proof fn law_what_becomes_of_an_answer(tile: Tile, kind: &str)
    ensures
        ({
            let described = tile.described && contains_text(kind@, "json"@);
            &&& step_after(tile, TileEvent::Unreachable) is Refuse
            &&& step_after(tile, TileEvent::Answer { success: false, content_type: kind }) is Refuse
            &&& !described ==> step_after(
                tile,
                TileEvent::Body { content_type: kind, read: false },
            ) is Refuse
            &&& described ==> step_after(
                tile,
                TileEvent::Answer { success: true, content_type: kind },
            ) is ReadText
            &&& !described ==> step_after(
                tile,
                TileEvent::Answer { success: true, content_type: kind },
            ) is ReadBytes
            &&& described ==> step_after(
                tile,
                TileEvent::Body { content_type: kind, read: true },
            ) is Rewrite
            &&& !described && tile.kept ==> step_after(
                tile,
                TileEvent::Body { content_type: kind, read: true },
            ) is KeepAndPassOn
            &&& !described && !tile.kept ==> step_after(
                tile,
                TileEvent::Body { content_type: kind, read: true },
            ) is PassOn
            &&& tile.kept ==> step_after(tile, TileEvent::Asked) is ReadDisk
            &&& !tile.kept ==> step_after(tile, TileEvent::Asked) is Fetch
            &&& step_after(tile, TileEvent::Disk { read: false }) is Fetch
        }),
{
}

/// An address of the tile server becomes one of the site's own, wherever it stands; what is not such
/// an address stays.
pub proof fn law_addresses_are_replaced(a: Seq<char>, b: Seq<char>)
    requires
        forall|i: int| 0 <= i < a.len() ==> #[trigger] a[i] != 'h',
    ensures
        own_addresses(a) == a,
        own_addresses(a + "https://tiles.openfreemap.org/"@ + b) == a + "/ofm/"@ + own_addresses(b),
    decreases a.len(),
{
    let from = "https://tiles.openfreemap.org/"@;
    reveal_strlit("https://tiles.openfreemap.org/");
    let s = a + from + b;
    if a.len() == 0 {
        assert(s =~= from + b);
        crate::text::law_beginnings_and_ends(from, b, s);
        assert(s.skip(from.len() as int) =~= b);
        assert(own_addresses(s) =~= a + "/ofm/"@ + own_addresses(b));
    } else {
        let rest = a.skip(1);
        assert forall|i: int| 0 <= i < rest.len() implies #[trigger] rest[i] != 'h' by {
            assert(rest[i] == a[i + 1]);
        }
        law_addresses_are_replaced(rest, b);
        assert(s[0] == a[0] && a[0] != 'h');
        if crate::text::begins_with(s, from) {
            assert(s.take(from.len() as int)[0] == s[0]);
        }
        if crate::text::begins_with(a, from) {
            assert(a.take(from.len() as int)[0] == a[0]);
        }
        assert(s.skip(1) =~= rest + from + b);
        assert(own_addresses(s) =~= a + "/ofm/"@ + own_addresses(b));
        assert(own_addresses(a) =~= a);
    }
}

/// The label of a feature is its name in simplified Chinese, or else in Chinese, in traditional
/// Chinese, in Latin letters, or the name that it has.
pub proof fn law_the_order_of_labels()
    ensures
        ({
            let names = seq!["name:zh-Hans"@, "name:zh"@, "name:zh-Hant"@, "name:latin"@, "name"@];
            &&& chinese_label() matches JsonV::Array(items)
            &&& items.len() == 6
            &&& items[0] == JsonV::Text("coalesce"@)
            &&& forall|k: int|
                0 <= k < 5 ==> #[trigger] items[k + 1] == JsonV::Array(
                    seq![JsonV::Text("get"@), JsonV::Text(names[k])],
                )
        }),
{
}

/// Of a style only the labels change: a layer of symbols that has a text gets the new one, and keeps
/// all else; other layers, and all other members of the style, stay as they are.
pub proof fn law_only_labels_change(style: JsonV, s: Seq<JsonV>, i: int, key: Seq<char>, inner: Seq<char>)
    requires
        member(style, "layers"@) == Some(JsonV::Array(s)),
        0 <= i < s.len(),
    ensures
        ({
            let labelled = text_member(s[i], "type"@) == Some("symbol"@) && (member(
                s[i],
                "layout"@,
            ) matches Some(l) && member(l, "text-field"@) is Some);
            &&& key != "layers"@ ==> member(localized(style), key) == member(style, key)
            &&& member(localized(style), "layers"@) matches Some(JsonV::Array(t))
            &&& t.len() == s.len()
            &&& !labelled ==> t[i] == s[i]
            &&& labelled ==> {
                &&& key != "layout"@ ==> member(t[i], key) == member(s[i], key)
                &&& member(t[i], "layout"@) matches Some(l)
                &&& member(l, "text-field"@) == Some(chinese_label())
                &&& inner != "text-field"@ ==> member(l, inner) == member(
                    member(s[i], "layout"@)->0,
                    inner,
                )
            }
        }),
{
    let t = Seq::new(s.len(), |k: int| localized_layer(s[k]));
    crate::json::lemma_put(style, "layers"@, JsonV::Array(t), key);
    if let Some(l) = member(s[i], "layout"@) {
        let value = put(l, "text-field"@, chinese_label());
        crate::json::lemma_put(s[i], "layout"@, value, key);
        if member(l, "text-field"@) is Some {
            crate::json::lemma_put(l, "text-field"@, chinese_label(), inner);
        }
    }
}

/// A style without a list of layers stays as it is.
pub proof fn law_styles_without_layers_stay(style: JsonV)
    requires
        !(member(style, "layers"@) matches Some(JsonV::Array(_))),
    ensures
        localized(style) == style,
{
}

/// The picture map names its source and where the pictures come from.
pub proof fn law_the_picture_map()
    ensures
        ({
            let c = carto_source();
            &&& member(c, "type"@) == Some(JsonV::Text("raster"@))
            &&& member(c, "tiles"@) matches Some(JsonV::Array(t)) && t.len() == 1 && t[0]
                == JsonV::Text("/carto/rastertiles/voyager/{z}/{x}/{y}@2x.png"@)
            &&& crate::json::uint_member(c, "tileSize"@) == Some(512u64)
            &&& crate::json::uint_member(c, "maxzoom"@) == Some(19u64)
            &&& crate::json::double_member(c, "tileSize"@) == Some(
                Double { bits: 0x4080_0000_0000_0000 },
            )
            &&& crate::json::double_member(c, "maxzoom"@) == Some(
                Double { bits: 0x4033_0000_0000_0000 },
            )
            &&& member(c, "attribution"@) == Some(
                JsonV::Text("© OpenStreetMap contributors © CARTO"@),
            )
        }),
{
    reveal_strlit("type");
    reveal_strlit("tiles");
    reveal_strlit("tileSize");
    reveal_strlit("maxzoom");
    reveal_strlit("attribution");
    let o = carto_source()->Object_0;
    assert("type"@.len() == 4 && "tiles"@.len() == 5 && "tileSize"@.len() == 8);
    assert("maxzoom"@.len() == 7 && "attribution"@.len() == 11);
    crate::json::law_the_first_member_counts(o, "type"@, 0);
    crate::json::law_the_first_member_counts(o, "tiles"@, 1);
    crate::json::law_the_first_member_counts(o, "tileSize"@, 2);
    crate::json::law_the_first_member_counts(o, "maxzoom"@, 3);
    crate::json::law_the_first_member_counts(o, "attribution"@, 4);
}

/// The picture map is drawn on a plain ground: first the ground, then the pictures of its source.
pub proof fn law_the_layers_of_the_picture_map()
    ensures
        ({
            &&& raster_layers() matches JsonV::Array(l)
            &&& l.len() == 2
            &&& member(l[0], "type"@) == Some(JsonV::Text("background"@))
            &&& member(l[0], "paint"@) matches Some(p) && member(p, "background-color"@) == Some(
                JsonV::Text("#e8ecef"@),
            )
            &&& member(l[1], "type"@) == Some(JsonV::Text("raster"@))
            &&& member(l[1], "source"@) == Some(JsonV::Text("carto"@))
            &&& member(l[0], "id"@) == Some(JsonV::Text("bg"@))
            &&& member(l[1], "id"@) == Some(JsonV::Text("carto"@))
        }),
{
    reveal_strlit("id");
    reveal_strlit("type");
    reveal_strlit("paint");
    reveal_strlit("source");
    assert("id"@.len() == 2 && "type"@.len() == 4 && "paint"@.len() == 5 && "source"@.len() == 6);
    let l = raster_layers()->Array_0;
    let (a, b) = (l[0]->Object_0, l[1]->Object_0);
    crate::json::law_the_first_member_counts(a, "id"@, 0);
    crate::json::law_the_first_member_counts(a, "type"@, 1);
    crate::json::law_the_first_member_counts(a, "paint"@, 2);
    crate::json::law_the_first_member_counts(b, "id"@, 0);
    crate::json::law_the_first_member_counts(b, "type"@, 1);
    crate::json::law_the_first_member_counts(b, "source"@, 2);
    let paint = member(l[0], "paint"@)->0->Object_0;
    crate::json::law_the_first_member_counts(paint, "background-color"@, 0);
}

} // verus!

use vstd::prelude::*;
use crate::text::{chars_of, str_equal};

verus! {

/// The position of the last `c` in `s`, or -1.
pub open spec fn last_index_of(s: Seq<char>, c: char) -> int
    decreases s.len(),
{
    if s.len() == 0 {
        -1
    } else if s.last() == c {
        s.len() - 1
    } else {
        last_index_of(s.drop_last(), c)
    }
}

pub proof fn lemma_last_index_range(s: Seq<char>, c: char)
    ensures
        -1 <= last_index_of(s, c) < s.len(),
        last_index_of(s, c) >= 0 ==> s[last_index_of(s, c)] == c,
    decreases s.len(),
{
    if s.len() > 0 {
        lemma_last_index_range(s.drop_last(), c);
    }
}

/// The stem of a file name (`Path::file_stem`): the name without its last
/// `.extension`; a name whose only dot leads it has no extension.
pub open spec fn file_stem(name: Seq<char>) -> Seq<char> {
    let d = last_index_of(name, '.');
    if d <= 0 {
        name
    } else {
        name.take(d)
    }
}

/// The extension of a file name (`Path::extension`), if it has one.
pub open spec fn file_extension(name: Seq<char>) -> Option<Seq<char>> {
    let d = last_index_of(name, '.');
    if d <= 0 {
        None
    } else {
        Some(name.skip(d + 1))
    }
}

/// The file name of a Unix path, as `Path::file_name` finds it: its last
/// component, where empty components (repeated or trailing `/`) and `.` are
/// skipped; a last component `..`, or none at all, names no file.
pub open spec fn file_name(path: Seq<char>) -> Option<Seq<char>>
    decreases path.len() via file_name_decreases
{
    let s = last_index_of(path, '/');
    let piece = path.skip(s + 1);
    if piece.len() == 0 || piece == seq!['.'] {
        if s < 0 {
            None
        } else {
            file_name(path.take(s))
        }
    } else if piece == seq!['.', '.'] {
        None
    } else {
        Some(piece)
    }
}

#[via_fn]
proof fn file_name_decreases(path: Seq<char>) {
    lemma_last_index_range(path, '/');
}

/// The key of a path: the stem of its file name, empty when it names no file.
pub open spec fn path_key(path: Seq<char>) -> Seq<char> {
    match file_name(path) {
        Some(n) => file_stem(n),
        None => Seq::empty(),
    }
}

pub open spec fn ascii_lower(c: char) -> char {
    if 'A' <= c && c <= 'Z' {
        (((c as u8) + 32) as u8) as char
    } else {
        c
    }
}

/// ASCII case-insensitive equality (`str::eq_ignore_ascii_case`).
pub open spec fn eq_ignore_ascii_case(a: Seq<char>, b: Seq<char>) -> bool {
    a.len() == b.len() && forall|i: int| 0 <= i < a.len() ==> ascii_lower(a[i]) == ascii_lower(b[i])
}

/// Raster files are recognised by their extension, in any case.
pub open spec fn is_raster_extension(ext: Seq<char>) -> bool {
    eq_ignore_ascii_case(ext, "tif"@) || eq_ignore_ascii_case(ext, "tiff"@)
        || eq_ignore_ascii_case(ext, "geotiff"@) || eq_ignore_ascii_case(ext, "geotif"@)
}

/// The position of the last `c` in `chars[..end]`, or -1.
fn last_index(chars: &Vec<char>, end: usize, c: char) -> (r: i64)
    requires
        end <= chars@.len() < i64::MAX,
    ensures
        r == last_index_of(chars@.take(end as int), c),
        -1 <= r < end,
{
    proof { lemma_last_index_range(chars@.take(end as int), c); }
    let mut i: usize = end;
    assert(chars@.take(end as int).take(end as int) =~= chars@.take(end as int));
    while i > 0
        invariant
            i <= end <= chars@.len() < i64::MAX,
            last_index_of(chars@.take(end as int), c) == last_index_of(chars@.take(i as int), c),
        decreases i,
    {
        assert(chars@.take(i as int).drop_last() =~= chars@.take(i - 1));
        if chars[i - 1] == c {
            return (i - 1) as i64;
        }
        i = i - 1;
    }
    -1
}

/// The key under which a raster's metadata is cached: the stem of its file
/// name (`Path::file_stem`), or empty when the path names no file.
pub fn key_for(path: &str, _root: &str) -> (r: String)
    requires
        path@.len() < i64::MAX,
    ensures
        r@ == path_key(path@),
{
    let chars = chars_of(path);
    let mut end: usize = chars.len();
    assert(chars@.take(end as int) =~= path@);
    loop
        invariant
            chars@ == path@,
            end <= chars@.len() < i64::MAX,
            file_name(path@) == file_name(chars@.take(end as int)),
        decreases end,
    {
        let ghost p = chars@.take(end as int);
        let slash = last_index(&chars, end, '/');
        let from = (slash + 1) as usize;
        assert(p.skip(slash + 1) =~= chars@.subrange(from as int, end as int));
        let len = end - from;
        if len == 0 || (len == 1 && chars[from] == '.') {
            assert(len == 1 ==> p.skip(slash + 1) =~= seq!['.']);
            if slash < 0 {
                return String::new();
            }
            assert(p.take(slash as int) =~= chars@.take(slash as int));
            end = slash as usize;
        } else if len == 2 && chars[from] == '.' && chars[from + 1] == '.' {
            assert(p.skip(slash + 1) =~= seq!['.', '.']);
            return String::new();
        } else {
            assert(len == 1 ==> p.skip(slash + 1) != seq!['.']) by {
                if len == 1 {
                    assert(p.skip(slash + 1)[0] == chars@[from as int]);
                }
            }
            assert(len == 2 ==> p.skip(slash + 1) != seq!['.', '.']) by {
                if len == 2 {
                    assert(p.skip(slash + 1)[0] == chars@[from as int]);
                    assert(p.skip(slash + 1)[1] == chars@[from + 1]);
                }
            }
            let name = path.substring_char(from, end);
            assert(name@ =~= p.skip(slash + 1));
            let name_chars = chars_of(name);
            let dot = last_index(&name_chars, name_chars.len(), '.');
            assert(name_chars@.take(name_chars@.len() as int) =~= name_chars@);
            if dot <= 0 {
                return String::from_str(name);
            } else {
                let stem = name.substring_char(0, dot as usize);
                assert(stem@ =~= name@.take(dot as int));
                return String::from_str(stem);
            }
        }
    }
}

fn ascii_lower_char(c: char) -> (r: char)
    ensures
        r == ascii_lower(c),
{
    if 'A' <= c && c <= 'Z' {
        ((c as u8) + 32) as char
    } else {
        c
    }
}

fn eq_ignore_case(a: &Vec<char>, from: usize, b: &str) -> (r: bool)
    requires
        from <= a@.len(),
    ensures
        r == eq_ignore_ascii_case(a@.skip(from as int), b@),
{
    let n = b.unicode_len();
    let len = a.len();
    if len - from != n {
        return false;
    }
    let mut j: usize = 0;
    while j < n
        invariant
            n == b@.len() == a@.len() - from,
            from <= a@.len(),
            j <= n,
            from + n == a@.len(),
            len == a@.len(),
            forall|k: int| 0 <= k < j ==> ascii_lower(a@.skip(from as int)[k]) == ascii_lower(b@[k]),
        decreases n - j,
    {
        if ascii_lower_char(a[from + j]) != ascii_lower_char(b.get_char(j)) {
            return false;
        }
        j = j + 1;
    }
    true
}

/// A raster file found under the data root: its layer name and style bucket.
#[derive(Debug, Clone)]
pub struct RasterFile {
    pub layer: String,
    pub style: String,
}

/// The layer name and style of a raster file, from its path below the data
/// root given as its components (`<style>/<file>` and deeper): files directly
/// under the root, and files without a raster extension, are none.
pub open spec fn raster_file_of(components: Seq<Seq<char>>) -> Option<(Seq<char>, Seq<char>)> {
    if components.len() < 2 {
        None
    } else {
        match file_extension(components.last()) {
            Some(e) => if is_raster_extension(e) {
                Some((file_stem(components.last()), components[components.len() - 2]))
            } else {
                None
            },
            None => None,
        }
    }
}

/// Recognises a raster file from its path below the data root, given as its
/// components. The layer is the file's stem and the style its directory's name.
pub fn raster_file(components: &Vec<String>) -> (r: Option<RasterFile>)
    requires
        forall|i: int| 0 <= i < components@.len() ==> (#[trigger] components@[i])@.len() < i64::MAX,
    ensures
        match r {
            Some(f) => raster_file_of(components@.map_values(|c: String| c@)) == Some(
                (f.layer@, f.style@),
            ),
            None => raster_file_of(components@.map_values(|c: String| c@)) is None,
        },
{
    let ghost cs = components@.map_values(|c: String| c@);
    let n = components.len();
    if n < 2 {
        return None;
    }
    let name = components[n - 1].as_str();
    let chars = chars_of(name);
    assert(chars@.take(chars@.len() as int) =~= chars@);
    let dot = last_index(&chars, chars.len(), '.');
    if dot <= 0 {
        return None;
    }
    let from = (dot + 1) as usize;
    let accepted = eq_ignore_case(&chars, from, "tif") || eq_ignore_case(&chars, from, "tiff")
        || eq_ignore_case(&chars, from, "geotiff") || eq_ignore_case(&chars, from, "geotif");
    assert(cs.last() == name@ && cs[cs.len() - 2] == components@[n - 2]@);
    assert(chars@.skip(from as int) == name@.skip(dot + 1));
    if !accepted {
        return None;
    }
    let stem = name.substring_char(0, dot as usize);
    assert(stem@ =~= name@.take(dot as int));
    Some(RasterFile { layer: String::from_str(stem), style: components[n - 2].clone() })
}

/// Whether a raster's `LAYOUT` image-structure metadata marks it as a
/// cloud-optimised GeoTIFF: it reads exactly `COG`.
pub fn is_cog_layout(layout: &str) -> (r: bool)
    ensures
        r == (layout@ == "COG"@),
{
    str_equal(layout, "COG")
}

/// Whether a cached metadata record can stand for a file: its size and
/// modification time (in seconds) both match.
pub fn is_unchanged(cached_size: u64, cached_mtime: u64, size: u64, mtime: u64) -> (r: bool)
    ensures
        r == (cached_size == size && cached_mtime == mtime),
{
    cached_size == size && cached_mtime == mtime
}

/// What `str::to_lowercase` makes of a text; it depends on the text alone.
pub uninterp spec fn lower_of(s: Seq<char>) -> Seq<char>;

/// Relies on `str::to_lowercase`: the Unicode lower case of the text.
#[verifier::external_body]
fn lowercase(s: &str) -> (r: String)
    ensures
        r@ == lower_of(s@),
{
    s.to_lowercase()
}

/// Lexicographic comparison of two texts by their characters: -1, 0 or 1.
pub open spec fn lex_cmp(a: Seq<char>, b: Seq<char>) -> int
    decreases a.len(),
{
    if a.len() == 0 {
        if b.len() == 0 {
            0
        } else {
            -1
        }
    } else if b.len() == 0 {
        1
    } else if (a[0] as u32) < (b[0] as u32) {
        -1
    } else if (a[0] as u32) > (b[0] as u32) {
        1
    } else {
        lex_cmp(a.drop_first(), b.drop_first())
    }
}

pub proof fn lemma_lex_cmp_flip(a: Seq<char>, b: Seq<char>)
    ensures
        lex_cmp(b, a) == -lex_cmp(a, b),
        -1 <= lex_cmp(a, b) <= 1,
    decreases a.len(),
{
    if a.len() > 0 && b.len() > 0 && (a[0] as u32) == (b[0] as u32) {
        lemma_lex_cmp_flip(a.drop_first(), b.drop_first());
    }
}

/// A layer of the catalogue: its name and the style it is drawn with.
#[derive(Debug, Clone)]
pub struct LayerEntry {
    pub layer: String,
    pub style: String,
}

/// The layers found at start-up, in the order in which they were found. The same
/// name may occur under several styles; the first one found is its default.
pub struct LayerCatalogue {
    entries: Vec<LayerEntry>,
}

/// Whether an entry answers a request for `layer`, drawn in `style` if one is given.
pub open spec fn entry_matches(
    e: (Seq<char>, Seq<char>),
    layer: Seq<char>,
    style: Option<Seq<char>>,
) -> bool {
    e.0 == layer && match style {
        Some(s) => e.1 == s,
        None => true,
    }
}

/// The order in which a listing presents two entries: by lower-cased name,
/// then by lower-cased style.
pub open spec fn listing_cmp(a: (Seq<char>, Seq<char>), b: (Seq<char>, Seq<char>)) -> int {
    let c = lex_cmp(lower_of(a.0), lower_of(b.0));
    if c != 0 {
        c
    } else {
        lex_cmp(lower_of(a.1), lower_of(b.1))
    }
}

pub open spec fn opt_str_view(s: Option<&str>) -> Option<Seq<char>> {
    match s {
        Some(s) => Some(s@),
        None => None,
    }
}

/// `order` lists each entry of `es` once, by `listing_cmp`, and entries that
/// compare equal keep the order in which they were found.
pub open spec fn is_listing_order(es: Seq<(Seq<char>, Seq<char>)>, order: Seq<usize>) -> bool {
    &&& order.len() == es.len()
    &&& forall|u: usize| (u as int) < es.len() ==> #[trigger] order.contains(u)
    &&& forall|j: int| 0 <= j < order.len() ==> (#[trigger] order[j] as int) < es.len()
    &&& forall|j: int|
        0 <= j < order.len() - 1 ==> #[trigger] listed_before(es, order[j], order[j + 1])
}

/// Whether entry `a` may stand just before entry `b` in a listing.
pub open spec fn listed_before(es: Seq<(Seq<char>, Seq<char>)>, a: usize, b: usize) -> bool {
    let c = listing_cmp(es[a as int], es[b as int]);
    c < 0 || (c == 0 && a < b)
}

impl LayerCatalogue {
    pub closed spec fn view(&self) -> Seq<(Seq<char>, Seq<char>)> {
        self.entries@.map_values(|e: LayerEntry| (e.layer@, e.style@))
    }

    /// An empty catalogue.
    pub fn new() -> (r: Self)
        ensures
            r@ == Seq::<(Seq<char>, Seq<char>)>::empty(),
    {
        let r = LayerCatalogue { entries: Vec::new() };
        assert(r@ =~= Seq::<(Seq<char>, Seq<char>)>::empty());
        r
    }

    /// Records the next layer found.
    pub fn add(&mut self, layer: String, style: String)
        ensures
            final(self)@ == old(self)@.push((layer@, style@)),
    {
        let ghost before = self.entries@;
        self.entries.push(LayerEntry { layer, style });
        assert(self@ =~= before.map_values(|e: LayerEntry| (e.layer@, e.style@)).push(
            (layer@, style@),
        ));
    }

    /// The number of layers.
    pub fn len(&self) -> (r: usize)
        ensures
            r == self@.len(),
    {
        self.entries.len()
    }

    /// The name and style of the `i`-th layer found.
    pub fn entry(&self, i: usize) -> (r: &LayerEntry)
        requires
            i < self@.len(),
        ensures
            (r.layer@, r.style@) == self@[i as int],
    {
        &self.entries[i]
    }

    /// The first layer found under `layer`, drawn in `style` when one is given.
    pub fn find(&self, layer: &str, style: Option<&str>) -> (r: Option<usize>)
        ensures
            match r {
                Some(i) => {
                    &&& i < self@.len()
                    &&& entry_matches(self@[i as int], layer@, opt_str_view(style))
                    &&& forall|j: int|
                        0 <= j < i ==> !entry_matches(
                            #[trigger] self@[j],
                            layer@,
                            opt_str_view(style),
                        )
                },
                None => forall|j: int|
                    0 <= j < self@.len() ==> !entry_matches(
                        #[trigger] self@[j],
                        layer@,
                        opt_str_view(style),
                    ),
            },
    {
        let mut i: usize = 0;
        while i < self.entries.len()
            invariant
                i <= self@.len() == self.entries@.len(),
                forall|j: int|
                    0 <= j < i ==> !entry_matches(#[trigger] self@[j], layer@, opt_str_view(style)),
            decreases self.entries@.len() - i,
        {
            let e = &self.entries[i];
            let found = str_equal(e.layer.as_str(), layer) && match style {
                Some(s) => str_equal(e.style.as_str(), s),
                None => true,
            };
            if found {
                return Some(i);
            }
            i = i + 1;
        }
        None
    }

    /// The indices of all layers in listing order: by lower-cased name, then by
    /// lower-cased style, with ties in the order found.
    pub fn listing_order(&self) -> (r: Vec<usize>)
        ensures
            is_listing_order(self@, r@),
    {
        let n = self.entries.len();
        let mut keys: Vec<(Vec<char>, Vec<char>)> = Vec::new();
        let mut k: usize = 0;
        while k < n
            invariant
                n == self@.len() == self.entries@.len(),
                k <= n,
                keys@.len() == k,
                forall|j: int|
                    0 <= j < k ==> (#[trigger] keys@[j]).0@ == lower_of(self@[j].0) && keys@[j].1@
                        == lower_of(self@[j].1),
            decreases n - k,
        {
            let e = &self.entries[k];
            let l = lowercase(e.layer.as_str());
            let s = lowercase(e.style.as_str());
            keys.push((chars_of(l.as_str()), chars_of(s.as_str())));
            k = k + 1;
        }
        let mut order: Vec<usize> = Vec::new();
        let mut i: usize = 0;
        while i < n
            invariant
                n == self@.len(),
                i <= n,
                keys@.len() == n,
                forall|j: int|
                    0 <= j < n ==> (#[trigger] keys@[j]).0@ == lower_of(self@[j].0) && keys@[j].1@
                        == lower_of(self@[j].1),
                is_listing_order(self@.take(i as int), order@),
            decreases n - i,
        {
            let ghost es = self@.take(i as int + 1);
            assert(es.len() == i + 1);
            let mut p: usize = 0;
            let mut stop = false;
            while p < order.len() && !stop
                invariant
                    n == self@.len(),
                    i < n,
                    keys@.len() == n,
                    forall|j: int|
                        0 <= j < n ==> (#[trigger] keys@[j]).0@ == lower_of(self@[j].0)
                            && keys@[j].1@ == lower_of(self@[j].1),
                    is_listing_order(self@.take(i as int), order@),
                    p <= order@.len(),
                    stop ==> p < order@.len() && listing_cmp(self@[order@[p as int] as int], self@[i as int]) > 0,
                    forall|q: int|
                        0 <= q < p ==> listing_cmp(self@[#[trigger] order@[q] as int], self@[i as int])
                            <= 0,
                decreases order@.len() - p, if stop { 0int } else { 1int },
            {
                proof {
                    assert(order@[p as int] < self@.take(i as int).len());
                }
                if key_cmp(&keys[order[p]], &keys[i]) > 0 {
                    stop = true;
                } else {
                    p = p + 1;
                }
            }
            let ghost before = order@;
            let ghost old_es = self@.take(i as int);
            proof {
                assert forall|q: int| 0 <= q < before.len() implies (before[q] as int) < i by {
                    assert(before[q] < old_es.len());
                }
                assert forall|t: int| 0 <= t < i implies es[t] == old_es[t] && es[t] == self@[t] by {}
                assert(es[i as int] == self@[i as int]);
                if p < before.len() {
                    let x = self@[before[p as int] as int];
                    let y = self@[i as int];
                    lemma_lex_cmp_flip(lower_of(x.0), lower_of(y.0));
                    lemma_lex_cmp_flip(lower_of(x.1), lower_of(y.1));
                    assert(listing_cmp(y, x) < 0);
                }
            }
            order.insert(p, i);
            proof {
                assert forall|j: usize| (j as int) < es.len() implies #[trigger] order@.contains(j) by {
                    if j < i {
                        assert(old_es.len() == i);
                        assert(before.contains(j));
                        let q = choose|q: int| 0 <= q < before.len() && before[q] == j;
                        if q < p {
                            assert(order@[q] == j);
                        } else {
                            assert(order@[q + 1] == j);
                        }
                    } else {
                        assert(order@[p as int] == i);
                    }
                }
                assert forall|j: int| 0 <= j < order@.len() implies (#[trigger] order@[j] as int) < es.len() by {
                    if j < p {
                        assert(order@[j] == before[j]);
                    } else if j > p {
                        assert(order@[j] == before[j - 1]);
                    }
                }
                assert forall|j: int| 0 <= j < order@.len() - 1 implies #[trigger] listed_before(
                    es,
                    order@[j],
                    order@[j + 1],
                ) by {
                    if j + 1 < p {
                        assert(order@[j] == before[j] && order@[j + 1] == before[j + 1]);
                        assert(listed_before(old_es, before[j], before[j + 1]));
                        assert(es[before[j] as int] == old_es[before[j] as int]);
                        assert(es[before[j + 1] as int] == old_es[before[j + 1] as int]);
                    } else if j + 1 == p {
                        assert(order@[j] == before[j] && order@[j + 1] == i);
                        assert(before[j] < i);
                        assert(listing_cmp(self@[before[j] as int], self@[i as int]) <= 0);
                    } else if j == p {
                        assert(order@[j] == i && order@[j + 1] == before[j]);
                    } else {
                        assert(order@[j] == before[j - 1] && order@[j + 1] == before[j]);
                        let k = j - 1;
                        assert(listed_before(old_es, before[k], before[k + 1]));
                        assert(k + 1 == j);
                        assert(es[before[j - 1] as int] == old_es[before[j - 1] as int]);
                        assert(es[before[j] as int] == old_es[before[j] as int]);
                    }
                }
            }
            i = i + 1;
        }
        assert(self@.take(n as int) =~= self@);
        order
    }
}

/// Compares two listing keys.
fn key_cmp(a: &(Vec<char>, Vec<char>), b: &(Vec<char>, Vec<char>)) -> (r: i8)
    ensures
        r as int == (if lex_cmp(a.0@, b.0@) != 0 {
            lex_cmp(a.0@, b.0@)
        } else {
            lex_cmp(a.1@, b.1@)
        }),
{
    let c = chars_cmp(&a.0, &b.0);
    if c != 0 {
        c
    } else {
        chars_cmp(&a.1, &b.1)
    }
}

/// Compares two texts character by character.
fn chars_cmp(a: &Vec<char>, b: &Vec<char>) -> (r: i8)
    ensures
        r as int == lex_cmp(a@, b@),
{
    let mut i: usize = 0;
    assert(a@.skip(0) =~= a@ && b@.skip(0) =~= b@);
    while i < a.len() && i < b.len()
        invariant
            i <= a@.len() && i <= b@.len(),
            lex_cmp(a@, b@) == lex_cmp(a@.skip(i as int), b@.skip(i as int)),
        decreases a@.len() - i,
    {
        let x = a[i];
        let y = b[i];
        if (x as u32) < (y as u32) {
            return -1;
        }
        if (x as u32) > (y as u32) {
            return 1;
        }
        assert(a@.skip(i as int).drop_first() =~= a@.skip(i + 1));
        assert(b@.skip(i as int).drop_first() =~= b@.skip(i + 1));
        i = i + 1;
    }
    if i < a.len() {
        1
    } else if i < b.len() {
        -1
    } else {
        0
    }
}

} // verus!

//! The multi-line cyclic-shift index: URL interning at construction, lazy
//! building of the merged, sorted rotation set, lookup, and search.

use crate::collate::{
    bytes_of, collate, lemma_collate_equal_iff, lemma_collate_flip, lemma_collate_transitive,
    magic, Rank,
};
use crate::errors::ShiftError;
use crate::regex_api::{regex_compiles, regex_match, regex_too_big, CompiledRegex};
use crate::rotate::{shift_seq, Direction};
use crate::shifter::{
    build_display_line, display_line, line_rotations, none_marker, spec_desc, spec_url,
    split_trailing_url, url_display,
};
use crate::text::{chars_of, contains_sub, is_substring, views_of, words_of};
use vstd::prelude::*;

verus! {

broadcast use vstd::seq_lib::group_to_multiset_ensures;

/// One rotation entry of the multi-line index: the rotation text, and the
/// interned id of the originating line's URL when that line carried one.
pub struct Item {
    pub desc: String,
    pub url_id: Option<u64>,
}

/// The mathematical value of an [`Item`].
#[verifier::ext_equal]
pub ghost struct ItemModel {
    pub desc: Seq<char>,
    pub url_id: Option<u64>,
}

impl View for Item {
    type V = ItemModel;

    open spec fn view(&self) -> ItemModel {
        ItemModel { desc: self.desc@, url_id: self.url_id }
    }
}

impl Item {
    /// Builds an entry from its rotation text and URL id.
    pub fn new(desc: String, url: Option<u64>) -> (r: Item)
        ensures
            r@ == (ItemModel { desc: desc@, url_id: url }),
    {
        Item { desc, url_id: url }
    }
}

/// The models of a sequence of entries.
pub open spec fn models_of(s: Seq<Item>) -> Seq<ItemModel> {
    s.map_values(|t: Item| t@)
}

/// URL ids in the cache order: an absent id comes first, then ids in
/// increasing order.
pub open spec fn id_le(a: Option<u64>, b: Option<u64>) -> bool {
    match (a, b) {
        (None, _) => true,
        (Some(_), None) => false,
        (Some(x), Some(y)) => x <= y,
    }
}

/// The cache order: by rotation text under the collation rule, and entries
/// with equal text by URL id, so a sorted collection is fully determined by
/// what it holds.
pub open spec fn item_le(a: ItemModel, b: ItemModel) -> bool {
    ||| collate(bytes_of(a.desc), bytes_of(b.desc)) == Rank::Less
    ||| (collate(bytes_of(a.desc), bytes_of(b.desc)) == Rank::Equal && id_le(a.url_id, b.url_id))
}

/// The cache order is reflexive.
proof fn lemma_item_le_refl(a: ItemModel)
    ensures
        item_le(a, a),
{
    lemma_collate_equal_iff(bytes_of(a.desc), bytes_of(a.desc));
}

/// The cache order is total: two entries always compare one way or the
/// other.
proof fn lemma_item_le_total(a: ItemModel, b: ItemModel)
    ensures
        item_le(a, b) || item_le(b, a),
{
    lemma_collate_flip(bytes_of(a.desc), bytes_of(b.desc));
}

/// The cache order is transitive.
proof fn lemma_item_le_trans(a: ItemModel, b: ItemModel, c: ItemModel)
    requires
        item_le(a, b),
        item_le(b, c),
    ensures
        item_le(a, c),
{
    let ab = bytes_of(a.desc);
    let bb = bytes_of(b.desc);
    let cb = bytes_of(c.desc);
    lemma_collate_equal_iff(ab, bb);
    lemma_collate_equal_iff(bb, cb);
    lemma_collate_equal_iff(ab, cb);
    if collate(ab, bb) == Rank::Less && collate(bb, cb) == Rank::Less {
        lemma_collate_transitive(ab, bb, cb);
    }
}

/// The cache order is antisymmetric: entries ranked both ways are the same
/// entry, because equal transformed bytes force equal bytes, equal bytes
/// decode to the same characters, and equally-ranked ids are equal.
proof fn lemma_item_le_antisym(a: ItemModel, b: ItemModel)
    requires
        item_le(a, b),
        item_le(b, a),
    ensures
        a == b,
{
    lemma_collate_flip(bytes_of(a.desc), bytes_of(b.desc));
    lemma_collate_equal_iff(bytes_of(a.desc), bytes_of(b.desc));
    assert(bytes_of(a.desc) == bytes_of(b.desc));
    vstd::utf8::encode_utf8_decode_utf8(a.desc);
    vstd::utf8::encode_utf8_decode_utf8(b.desc);
    assert(a.desc == b.desc);
    assert(a.url_id == b.url_id);
    assert(a =~= b);
}

/// The entries appear in the cache order: collation order of their rotation
/// texts, entries with equal text ordered by URL id.
pub open spec fn sorted_items(vs: Seq<ItemModel>) -> bool {
    forall|p: int, q: int| 0 <= p < q < vs.len() ==> item_le(#[trigger] vs[p], #[trigger] vs[q])
}

/// Whether `a` comes after `x` in the cache order.
fn item_after(a: &Item, x: &Item) -> (r: bool)
    ensures
        r == !item_le(a@, x@),
{
    match magic(a.desc.as_str(), x.desc.as_str()) {
        Rank::Greater => true,
        Rank::Less => false,
        Rank::Equal => match (a.url_id, x.url_id) {
            (None, _) => false,
            (Some(_), None) => true,
            (Some(p), Some(q)) => p > q,
        },
    }
}

/// Sorts entries into the cache order: the result is sorted and holds
/// exactly the entries of `v`, multiplicities included — by
/// [`lemma_sorted_items_unique`], the one such arrangement.
pub fn sort_items(v: Vec<Item>) -> (r: Vec<Item>)
    ensures
        sorted_items(models_of(r@)),
        models_of(r@).to_multiset() == models_of(v@).to_multiset(),
{
    let ghost orig = models_of(v@);
    let mut v = v;
    let n = v.len();
    let mut i: usize = 0;
    while i < n
        invariant
            i <= n,
            n == v@.len(),
            sorted_items(models_of(v@).take(i as int)),
            models_of(v@).to_multiset() == orig.to_multiset(),
        decreases n - i,
    {
        let ghost whole = models_of(v@);
        let x = v.remove(i);
        let ghost before = models_of(v@);
        proof {
            assert(before =~= whole.remove(i as int));
            assert(before.take(i as int) =~= whole.take(i as int));
            assert(whole[i as int] == x@);
        }
        let mut j: usize = i;
        while j > 0 && item_after(&v[j - 1], &x)
            invariant
                j <= i,
                i < n,
                n - 1 == v@.len(),
                models_of(v@) == before,
                forall|q: int| j <= q < i ==> !item_le(#[trigger] before[q], x@),
            decreases j,
        {
            j = j - 1;
        }
        v.insert(j, x);
        proof {
            let now = models_of(v@);
            assert(now =~= before.insert(j as int, x@));
            assert(now.to_multiset() == before.to_multiset().insert(x@));
            assert(before.to_multiset() == whole.to_multiset().remove(x@));
            assert(whole.contains(x@));
            assert(whole.to_multiset().count(x@) > 0);
            assert(whole.to_multiset().remove(x@).insert(x@) =~= whole.to_multiset());
            assert forall|p: int, q: int|
                0 <= p < q < i + 1 implies item_le(
                #[trigger] now.take(i as int + 1)[p],
                #[trigger] now.take(i as int + 1)[q],
            ) by {
                let s = before.take(i as int);
                if q < j {
                    assert(now[p] == s[p] && now[q] == s[q]);
                } else if p > j {
                    assert(now[p] == s[p - 1] && now[q] == s[q - 1]);
                } else if p < j && q > j {
                    assert(now[p] == s[p] && now[q] == s[q - 1]);
                } else if p == j {
                    // `x` against an entry the scan passed over
                    assert(now[q] == s[q - 1]);
                    assert(!item_le(s[q - 1], x@));
                    lemma_item_le_total(s[q - 1], x@);
                } else {
                    // an entry of the stopped prefix against `x`
                    assert(now[p] == s[p] && now[q] == x@);
                    assert(j > 0);
                    assert(item_le(s[j - 1], x@));
                    if p < j - 1 {
                        lemma_item_le_trans(s[p], s[j - 1], x@);
                    }
                }
            }
        }
        i = i + 1;
    }
    proof {
        assert(models_of(v@).take(n as int) =~= models_of(v@));
    }
    v
}

/// Sorted entries are determined by what they hold: two arrangements of the
/// same entries, both in the cache order, are the same sequence.  So the
/// final sorted collection is a pure function of the entries that went in: a
/// concurrent build can only permute the merged collection before its final
/// sort, and thread or batch timing cannot affect the observable result.
pub proof fn lemma_sorted_items_unique(a: Seq<ItemModel>, b: Seq<ItemModel>)
    requires
        sorted_items(a),
        sorted_items(b),
        a.to_multiset() == b.to_multiset(),
    ensures
        a == b,
    decreases a.len(),
{
    assert(a.to_multiset().len() == a.len());
    assert(b.to_multiset().len() == b.len());
    if a.len() == 0 {
        assert(a =~= b);
    } else {
        assert(a.contains(a[0]));
        assert(a.to_multiset().count(a[0]) > 0);
        assert(b.to_multiset().count(a[0]) > 0);
        assert(b.contains(a[0]));
        let j = choose|j: int| 0 <= j < b.len() && b[j] == a[0];
        assert(b.contains(b[0]));
        assert(b.to_multiset().count(b[0]) > 0);
        assert(a.to_multiset().count(b[0]) > 0);
        assert(a.contains(b[0]));
        let i = choose|i: int| 0 <= i < a.len() && a[i] == b[0];
        if j > 0 {
            assert(item_le(b[0], b[j]));
        } else {
            lemma_item_le_refl(a[0]);
        }
        if i > 0 {
            assert(item_le(a[0], a[i]));
        } else {
            lemma_item_le_refl(b[0]);
        }
        lemma_item_le_antisym(a[0], b[0]);
        let at = a.drop_first();
        let bt = b.drop_first();
        assert(at =~= a.remove(0));
        assert(bt =~= b.remove(0));
        assert(a.remove(0).to_multiset() =~= a.to_multiset().remove(a[0]));
        assert(b.remove(0).to_multiset() =~= b.to_multiset().remove(b[0]));
        assert(at.to_multiset() == bt.to_multiset());
        assert(sorted_items(at)) by {
            assert forall|p: int, q: int| 0 <= p < q < at.len() implies item_le(
                #[trigger] at[p],
                #[trigger] at[q],
            ) by {
                assert(at[p] == a[p + 1] && at[q] == a[q + 1]);
            }
        }
        assert(sorted_items(bt)) by {
            assert forall|p: int, q: int| 0 <= p < q < bt.len() implies item_le(
                #[trigger] bt[p],
                #[trigger] bt[q],
            ) by {
                assert(bt[p] == b[p + 1] && bt[q] == b[q + 1]);
            }
        }
        lemma_sorted_items_unique(at, bt);
        assert forall|k: int| 0 <= k < a.len() implies a[k] == b[k] by {
            if k > 0 {
                assert(at[k - 1] == a[k]);
                assert(bt[k - 1] == b[k]);
            }
        }
        assert(a =~= b);
    }
}

/// How many of the first `n` lines carry a URL.
pub open spec fn url_count(lines: Seq<Seq<char>>, n: int) -> nat
    decreases n,
{
    if n <= 0 {
        0
    } else {
        url_count(lines, n - 1) + (if spec_url(lines[n - 1]) is Some {
            1 as nat
        } else {
            0 as nat
        })
    }
}

/// The URLs of the first `n` lines, in order of appearance.
pub open spec fn urls_of(lines: Seq<Seq<char>>, n: int) -> Seq<Seq<char>>
    decreases n,
{
    if n <= 0 {
        Seq::empty()
    } else {
        match spec_url(lines[n - 1]) {
            Some(u) => urls_of(lines, n - 1).push(u),
            None => urls_of(lines, n - 1),
        }
    }
}

/// The interning counter after `n` lines equals the number of URLs interned.
pub proof fn lemma_url_count_len(lines: Seq<Seq<char>>, n: int)
    ensures
        url_count(lines, n) == urls_of(lines, n).len(),
    decreases n,
{
    if n > 0 {
        lemma_url_count_len(lines, n - 1);
    }
}

/// No more URLs are interned than lines seen.
pub proof fn lemma_url_count_bound(lines: Seq<Seq<char>>, n: int)
    ensures
        url_count(lines, n) <= (if n <= 0 {
            0int
        } else {
            n
        }),
    decreases n,
{
    if n > 0 {
        lemma_url_count_bound(lines, n - 1);
    }
}

/// Later lines never intern fewer URLs.
pub proof fn lemma_url_count_monotone(lines: Seq<Seq<char>>, a: int, b: int)
    requires
        a <= b,
    ensures
        url_count(lines, a) <= url_count(lines, b),
    decreases b - a,
{
    if a < b {
        lemma_url_count_monotone(lines, a, b - 1);
    }
}

/// The entry built from line `i` of `lines`: its description, and, when the
/// line carries a URL, a freshly incremented id — the count of URL-bearing
/// lines up to and including it, so ids start at 1.
pub open spec fn line_item(lines: Seq<Seq<char>>, i: int) -> ItemModel {
    ItemModel {
        desc: spec_desc(lines[i]),
        url_id: if spec_url(lines[i]) is Some {
            Some(url_count(lines, i + 1) as u64)
        } else {
            None
        },
    }
}

/// Two lines that both carry a URL receive distinct interned ids, even when
/// their URL text is identical: URLs are interned per line, never
/// deduplicated across lines.
pub proof fn lemma_urls_not_deduplicated(lines: Seq<Seq<char>>, i: int, j: int)
    requires
        0 <= i < j < lines.len(),
        lines.len() <= u64::MAX,
        spec_url(lines[i]) is Some,
        spec_url(lines[j]) is Some,
    ensures
        line_item(lines, i).url_id is Some,
        line_item(lines, j).url_id is Some,
        line_item(lines, i).url_id != line_item(lines, j).url_id,
{
    lemma_url_count_monotone(lines, i + 1, j);
    lemma_url_count_bound(lines, i + 1);
    lemma_url_count_bound(lines, j + 1);
    assert(url_count(lines, j + 1) == url_count(lines, j) + 1);
    assert(url_count(lines, i + 1) < url_count(lines, j + 1));
}

/// The entries of `ss`, each tagged with the URL id `id`.
pub open spec fn tag_all(ss: Seq<Seq<char>>, id: Option<u64>) -> Seq<ItemModel> {
    ss.map_values(|s: Seq<char>| ItemModel { desc: s, url_id: id })
}

/// The tagged rotation set of one entry: the full left rotation set of its
/// description's words, each rotation carrying the entry's URL id.
pub open spec fn item_rotations(m: ItemModel) -> Seq<ItemModel> {
    tag_all(shift_seq(words_of(m.desc), Direction::Left, words_of(m.desc).len()), m.url_id)
}

/// Every entry's rotation set, concatenated in line order.
pub open spec fn all_rotations(items: Seq<ItemModel>) -> Seq<ItemModel>
    decreases items.len(),
{
    if items.len() == 0 {
        Seq::empty()
    } else {
        all_rotations(items.drop_last()) + item_rotations(items.last())
    }
}

/// Every URL id among `items` names an interned URL: absent, or between 1
/// and the table's size.
pub open spec fn ids_ok(items: Seq<ItemModel>, nurls: nat) -> bool {
    forall|k: int|
        0 <= k < items.len() ==> match (#[trigger] items[k]).url_id {
            Some(id) => 1 <= id <= nurls,
            None => true,
        }
}

/// Rotations carry their line's URL id, so the merged rotation set names
/// only interned URLs.
proof fn lemma_all_rotations_ids(items: Seq<ItemModel>, nurls: nat)
    requires
        ids_ok(items, nurls),
    ensures
        ids_ok(all_rotations(items), nurls),
    decreases items.len(),
{
    if items.len() > 0 {
        assert(ids_ok(items.drop_last(), nurls));
        lemma_all_rotations_ids(items.drop_last(), nurls);
        let left = all_rotations(items.drop_last());
        let right = item_rotations(items.last());
        assert forall|k: int|
            0 <= k < all_rotations(items).len() implies match (#[trigger] all_rotations(
            items,
        )[k]).url_id {
            Some(id) => 1 <= id <= nurls,
            None => true,
        } by {
            if k < left.len() {
                assert(all_rotations(items)[k] == left[k]);
            } else {
                assert(all_rotations(items)[k] == right[k - left.len()]);
                assert(right[k - left.len()].url_id == items.last().url_id);
                assert(items[items.len() - 1] == items.last());
            }
        }
    }
}

/// A multiset-equal rearrangement names the same URL ids.
proof fn lemma_ids_ok_multiset(a: Seq<ItemModel>, b: Seq<ItemModel>, nurls: nat)
    requires
        a.to_multiset() == b.to_multiset(),
        ids_ok(a, nurls),
    ensures
        ids_ok(b, nurls),
{
    assert forall|k: int|
        0 <= k < b.len() implies match (#[trigger] b[k]).url_id {
        Some(id) => 1 <= id <= nurls,
        None => true,
    } by {
        assert(b.contains(b[k]));
        assert(b.to_multiset().count(b[k]) > 0);
        assert(a.to_multiset().count(b[k]) > 0);
        assert(a.contains(b[k]));
        let t = choose|t: int| 0 <= t < a.len() && a[t] == b[k];
        assert(a[t] == b[k]);
    }
}

/// The interned URL of an entry's id, if it has one.
pub open spec fn resolve_url(id: Option<u64>, urls: Seq<Seq<char>>) -> Option<Seq<char>> {
    match id {
        Some(v) => Some(urls[v as int - 1]),
        None => None,
    }
}

/// The text a multi-line search scans for one entry: the rotation text, and,
/// when the URL is searched too, a space and the displayed URL.
pub open spec fn entry_text(m: ItemModel, urls: Seq<Seq<char>>, all: bool) -> Seq<char> {
    if all {
        m.desc + seq![' '] + url_display(resolve_url(m.url_id, urls))
    } else {
        m.desc
    }
}

/// The indices among the first `n` entries whose scanned text holds `pat` as
/// a substring, in increasing order.
pub open spec fn lines_matching(
    c: Seq<ItemModel>,
    urls: Seq<Seq<char>>,
    pat: Seq<char>,
    all: bool,
    n: int,
) -> Seq<usize>
    decreases n,
{
    if n <= 0 {
        Seq::empty()
    } else if is_substring(pat, entry_text(c[n - 1], urls, all)) {
        lines_matching(c, urls, pat, all, n - 1).push((n - 1) as usize)
    } else {
        lines_matching(c, urls, pat, all, n - 1)
    }
}

/// The indices among the first `n` entries whose scanned text the regular
/// expression `pat` matches, in increasing order.
pub open spec fn lines_regex(
    c: Seq<ItemModel>,
    urls: Seq<Seq<char>>,
    pat: Seq<char>,
    all: bool,
    n: int,
) -> Seq<usize>
    decreases n,
{
    if n <= 0 {
        Seq::empty()
    } else if regex_match(pat, entry_text(c[n - 1], urls, all)) {
        lines_regex(c, urls, pat, all, n - 1).push((n - 1) as usize)
    } else {
        lines_regex(c, urls, pat, all, n - 1)
    }
}

/// A many-line cyclic-shift index.  Each line is split into a description
/// and an optional trailing URL at construction; URLs are interned into an
/// append-only table, one fresh id per URL-bearing line.  The merged, sorted
/// rotation set over all lines is built lazily and cached.
pub struct RapidShifterLines {
    item: Vec<Item>,
    shifts: Option<Vec<Item>>,
    urls: Vec<String>,
}

impl RapidShifterLines {
    /// The entries built from the input lines.
    pub closed spec fn items_model(self) -> Seq<ItemModel> {
        models_of(self.item@)
    }

    /// The interned URL table, in order of interning; id `i` names entry
    /// `i - 1`.
    pub closed spec fn urls_view(self) -> Seq<Seq<char>> {
        views_of(self.urls@)
    }

    /// The cached merged rotation set, if built.
    pub closed spec fn cache_model(self) -> Option<Seq<ItemModel>> {
        match self.shifts {
            Some(v) => Some(models_of(v@)),
            None => None,
        }
    }

    /// Every id names an interned URL, and a built cache holds exactly the
    /// merged rotation set of every line, in collation order of the texts.
    pub open spec fn inv(self) -> bool {
        ids_ok(self.items_model(), self.urls_view().len()) && match self.cache_model() {
            Some(c) => sorted_items(c) && c.to_multiset() == all_rotations(
                self.items_model(),
            ).to_multiset() && ids_ok(c, self.urls_view().len()),
            None => true,
        }
    }

    /// Builds the index for many raw lines: each is trimmed and a trailing
    /// URL token split off; each URL-bearing line gets a freshly incremented
    /// id, identical URL text notwithstanding.  No rotations are built yet.
    pub fn new(item: Vec<String>) -> (r: RapidShifterLines)
        ensures
            r.inv(),
            r.cache_model() is None,
            r.items_model().len() == item@.len(),
            forall|i: int|
                0 <= i < item@.len() ==> r.items_model()[i] == line_item(views_of(item@), i),
            r.urls_view() == urls_of(views_of(item@), item@.len() as int),
    {
        let ghost lines = views_of(item@);
        let mut items: Vec<Item> = Vec::new();
        let mut urls: Vec<String> = Vec::new();
        let n = item.len();
        let mut i: usize = 0;
        while i < n
            invariant
                i <= n,
                n == item@.len(),
                lines == views_of(item@),
                items@.len() == i,
                urls@.len() == url_count(lines, i as int),
                views_of(urls@) =~= urls_of(lines, i as int),
                forall|k: int| 0 <= k < i ==> models_of(items@)[k] == line_item(lines, k),
            decreases n - i,
        {
            let ghost old_urls = urls@;
            let ghost old_items = items@;
            let (desc, url) = split_trailing_url(item[i].as_str());
            proof {
                lemma_url_count_len(lines, i as int + 1);
            }
            match url {
                Some(u) => {
                    urls.push(u);
                    let id = urls.len() as u64;
                    items.push(Item::new(desc, Some(id)));
                    proof {
                        assert(views_of(urls@) =~= urls_of(lines, i as int + 1));
                    }
                },
                None => {
                    items.push(Item::new(desc, None));
                    proof {
                        assert(views_of(urls@) =~= urls_of(lines, i as int + 1));
                    }
                },
            }
            proof {
                assert forall|k: int| 0 <= k < i + 1 implies models_of(items@)[k] == line_item(
                    lines,
                    k,
                ) by {
                    if k < i {
                        assert(items@[k] == old_items[k]);
                        assert(models_of(old_items)[k] == line_item(lines, k));
                    }
                }
            }
            i = i + 1;
        }
        proof {
            lemma_url_count_len(lines, n as int);
            assert forall|k: int|
                0 <= k < models_of(items@).len() implies match (#[trigger] models_of(
                items@,
            )[k]).url_id {
                Some(id) => 1 <= id <= views_of(urls@).len(),
                None => true,
            } by {
                assert(models_of(items@)[k] == line_item(lines, k));
                if spec_url(lines[k]) is Some {
                    lemma_url_count_bound(lines, k + 1);
                    lemma_url_count_monotone(lines, k + 1, n as int);
                    assert(url_count(lines, k + 1) >= 1);
                }
            }
        }
        RapidShifterLines { item: items, shifts: None, urls }
    }

    /// The entries built from the input lines, in input order.
    pub fn lines(&self) -> (r: &Vec<Item>)
        ensures
            models_of(r@) == self.items_model(),
    {
        &self.item
    }

    /// The interned URL table, in interning order: id `i` names entry `i - 1`.
    pub fn urls(&self) -> (r: &Vec<String>)
        ensures
            views_of(r@) == self.urls_view(),
    {
        &self.urls
    }

    /// Generates every line's full rotation set, tagged with the line's URL
    /// id, merges them, sorts the merged collection by rotation text under
    /// the collation rule, and caches it, replacing any earlier cache.
    pub fn process(&mut self)
        requires
            old(self).inv(),
        ensures
            final(self).items_model() == old(self).items_model(),
            final(self).urls_view() == old(self).urls_view(),
            final(self).inv(),
            final(self).cache_model() is Some,
    {
        let ghost ims = self.items_model();
        let n = self.item.len();
        let mut merged: Vec<Item> = Vec::new();
        let mut i: usize = 0;
        while i < n
            invariant
                i <= n,
                n == self.item@.len(),
                self.items_model() == ims,
                models_of(merged@) =~= all_rotations(ims.take(i as int)),
            decreases n - i,
        {
            let ghost before = models_of(merged@);
            let it = &self.item[i];
            let shifts = line_rotations(it.desc.as_str());
            let id = it.url_id;
            let ghost tagged = item_rotations(ims[i as int]);
            let m = shifts.len();
            let mut k: usize = 0;
            while k < m
                invariant
                    k <= m,
                    m == shifts@.len(),
                    views_of(shifts@) == tagged.map_values(|t: ItemModel| t.desc),
                    forall|q: int| 0 <= q < m ==> (#[trigger] tagged[q]).url_id == id,
                    tagged.len() == m,
                    models_of(merged@) =~= before + tagged.take(k as int),
                decreases m - k,
            {
                let ghost old_merged = merged@;
                merged.push(Item::new(shifts[k].clone(), id));
                proof {
                    assert(tagged[k as int].desc == views_of(shifts@)[k as int]);
                    assert(models_of(merged@) =~= models_of(old_merged).push(tagged[k as int]));
                    assert(before + tagged.take(k as int + 1) =~= (before + tagged.take(
                        k as int,
                    )).push(tagged[k as int]));
                }
                k = k + 1;
            }
            proof {
                assert(tagged.take(m as int) =~= tagged);
                assert(ims.take(i as int + 1).drop_last() =~= ims.take(i as int));
                assert(ims.take(i as int + 1).last() == ims[i as int]);
                assert(all_rotations(ims.take(i as int + 1)) == all_rotations(ims.take(i as int))
                    + item_rotations(ims[i as int]));
            }
            i = i + 1;
        }
        proof {
            assert(ims.take(n as int) =~= ims);
        }
        let sorted_vec = sort_items(merged);
        proof {
            lemma_all_rotations_ids(ims, self.urls_view().len());
            lemma_ids_ok_multiset(
                all_rotations(ims),
                models_of(sorted_vec@),
                self.urls_view().len(),
            );
        }
        self.shifts = Some(sorted_vec);
    }

    /// Installs `shifts` as the built cache, when it is exactly what
    /// `process` builds: the merged rotation set of every line, in the cache
    /// order.  A caller that builds the collection itself — say with a batch
    /// of workers, one line each — hands the merged, sorted result over
    /// here; by [`lemma_sorted_items_unique`] there is only one such
    /// collection, so the installed cache is the one `process` would have
    /// built.
    pub fn install(&mut self, shifts: Vec<Item>)
        requires
            old(self).inv(),
            sorted_items(models_of(shifts@)),
            models_of(shifts@).to_multiset() == all_rotations(old(self).items_model()).to_multiset(),
        ensures
            final(self).items_model() == old(self).items_model(),
            final(self).urls_view() == old(self).urls_view(),
            final(self).inv(),
            final(self).cache_model() == Some(models_of(shifts@)),
    {
        proof {
            lemma_all_rotations_ids(self.items_model(), self.urls_view().len());
            lemma_ids_ok_multiset(
                all_rotations(self.items_model()),
                models_of(shifts@),
                self.urls_view().len(),
            );
        }
        self.shifts = Some(shifts);
    }

    /// The displayed URL text of an entry: the interned URL named by its id,
    /// or the placeholder.
    fn resolve_display(&self, id: Option<u64>) -> (r: String)
        requires
            match id {
                Some(v) => 1 <= v <= self.urls_view().len(),
                None => true,
            },
        ensures
            r@ == url_display(resolve_url(id, self.urls_view())),
    {
        match id {
            Some(v) => {
                let ul = self.urls.len();
                let idx = (v as usize) - 1;
                self.urls[idx].clone()
            },
            None => {
                proof {
                    reveal_strlit("<None>");
                }
                let r = String::from_str("<None>");
                proof {
                    assert(r@ =~= none_marker());
                }
                r
            },
        }
    }

    /// The sorted rotation texts, building the cache first when absent.
    pub fn shifts(&mut self) -> (r: Vec<String>)
        requires
            old(self).inv(),
        ensures
            final(self).items_model() == old(self).items_model(),
            final(self).urls_view() == old(self).urls_view(),
            final(self).inv(),
            final(self).cache_model() is Some,
            ({
                let c = final(self).cache_model()->Some_0;
                r@.len() == c.len() && forall|i: int|
                    0 <= i < c.len() ==> (#[trigger] r@[i])@ == c[i].desc
            }),
    {
        if self.shifts.is_none() {
            self.process();
        }
        let ghost c = self.cache_model()->Some_0;
        let shifts = self.shifts.as_ref().unwrap();
        let n = shifts.len();
        let mut out: Vec<String> = Vec::new();
        let mut i: usize = 0;
        while i < n
            invariant
                i <= n,
                n == c.len(),
                models_of(shifts@) == c,
                out@.len() == i,
                forall|j: int| 0 <= j < i ==> (#[trigger] out@[j])@ == c[j].desc,
            decreases n - i,
        {
            out.push(shifts[i].desc.clone());
            i = i + 1;
        }
        out
    }

    /// The rotation at `index` followed by a space and its displayed URL;
    /// out-of-range access is reported as an error, for any index at or
    /// beyond the rotation count.
    pub fn get(&mut self, index: usize) -> (r: Result<String, ShiftError>)
        requires
            old(self).inv(),
        ensures
            final(self).items_model() == old(self).items_model(),
            final(self).urls_view() == old(self).urls_view(),
            final(self).inv(),
            final(self).cache_model() is Some,
            ({
                let c = final(self).cache_model()->Some_0;
                if index < c.len() {
                    r matches Ok(s) && s@ == c[index as int].desc + seq![' '] + url_display(
                        resolve_url(c[index as int].url_id, final(self).urls_view()),
                    )
                } else {
                    r == Result::<String, ShiftError>::Err(ShiftError::OutOfRange)
                }
            }),
    {
        if self.shifts.is_none() {
            self.process();
        }
        let shifts = self.shifts.as_ref().unwrap();
        if index >= shifts.len() {
            return Err(ShiftError::OutOfRange);
        }
        let entry = &shifts[index];
        let us = self.resolve_display(entry.url_id);
        let mut out = entry.desc.clone();
        proof {
            reveal_strlit(" ");
        }
        out.append(" ");
        out.append(us.as_str());
        proof {
            let c = self.cache_model()->Some_0;
            assert(out@ =~= c[index as int].desc + seq![' '] + url_display(
                resolve_url(c[index as int].url_id, self.urls_view()),
            ));
        }
        Ok(out)
    }

    /// The display lines of every rotation, in order: each is the rotation
    /// and its displayed URL, in the plain or the verbose form.
    pub fn render_all(&mut self, verbose: bool) -> (r: Vec<String>)
        requires
            old(self).inv(),
        ensures
            final(self).items_model() == old(self).items_model(),
            final(self).urls_view() == old(self).urls_view(),
            final(self).inv(),
            final(self).cache_model() is Some,
            ({
                let c = final(self).cache_model()->Some_0;
                let urls = final(self).urls_view();
                r@.len() == c.len() && forall|i: int|
                    0 <= i < c.len() ==> (#[trigger] r@[i])@ == display_line(
                        i,
                        c[i].desc,
                        url_display(resolve_url(c[i].url_id, urls)),
                        verbose,
                    )
            }),
    {
        if self.shifts.is_none() {
            self.process();
        }
        let ghost c = self.cache_model()->Some_0;
        let shifts = self.shifts.as_ref().unwrap();
        let n = shifts.len();
        let mut out: Vec<String> = Vec::new();
        let mut i: usize = 0;
        while i < n
            invariant
                i <= n,
                n == c.len(),
                models_of(shifts@) == c,
                ids_ok(c, self.urls_view().len()),
                out@.len() == i,
                forall|j: int|
                    0 <= j < i ==> (#[trigger] out@[j])@ == display_line(
                        j,
                        c[j].desc,
                        url_display(resolve_url(c[j].url_id, self.urls_view())),
                        verbose,
                    ),
            decreases n - i,
        {
            let entry = &shifts[i];
            proof {
                assert(entry@ == c[i as int]);
            }
            let us = self.resolve_display(entry.url_id);
            let line = build_display_line(i, &entry.desc, &us, verbose);
            out.push(line);
            i = i + 1;
        }
        out
    }

    /// Searches the rotations for `pat` as a literal substring; when `all`
    /// is set, each scanned entry carries a space and its displayed URL.
    /// Reports the matching positions in increasing order, or an absent
    /// result when nothing matches.
    pub fn search(&mut self, pat: String, all: bool) -> (r: Option<Vec<usize>>)
        requires
            old(self).inv(),
        ensures
            final(self).items_model() == old(self).items_model(),
            final(self).urls_view() == old(self).urls_view(),
            final(self).inv(),
            final(self).cache_model() is Some,
            ({
                let c = final(self).cache_model()->Some_0;
                let m = lines_matching(c, final(self).urls_view(), pat@, all, c.len() as int);
                match r {
                    Some(v) => m.len() > 0 && v@ == m,
                    None => m.len() == 0,
                }
            }),
    {
        if self.shifts.is_none() {
            self.process();
        }
        let pat_chars = chars_of(pat.as_str());
        let ghost c = self.cache_model()->Some_0;
        let n = self.shifts.as_ref().unwrap().len();
        let mut res: Vec<usize> = Vec::new();
        let mut i: usize = 0;
        while i < n
            invariant
                i <= n,
                n == c.len(),
                self.inv(),
                self.cache_model() == Some(c),
                pat_chars@ == pat@,
                res@ == lines_matching(c, self.urls_view(), pat@, all, i as int),
            decreases n - i,
        {
            let shifts = self.shifts.as_ref().unwrap();
            let entry = &shifts[i];
            proof {
                assert(entry@ == c[i as int]);
            }
            let mut text = entry.desc.clone();
            if all {
                let us = self.resolve_display(entry.url_id);
                proof {
                    reveal_strlit(" ");
                }
                text.append(" ");
                text.append(us.as_str());
            }
            proof {
                assert(text@ =~= entry_text(c[i as int], self.urls_view(), all));
            }
            let text_chars = chars_of(text.as_str());
            if contains_sub(&text_chars, &pat_chars) {
                res.push(i);
            }
            i = i + 1;
        }
        if res.len() == 0 {
            None
        } else {
            Some(res)
        }
    }

    /// Searches the rotations with a regular expression; when `all` is set,
    /// each scanned entry carries a space and its displayed URL.  A pattern
    /// that does not compile is reported as the corresponding error; no
    /// matches at all is an ordinary absent result.
    pub fn regex_search(&mut self, re: &str, all: bool) -> (r: Result<
        Option<Vec<usize>>,
        ShiftError,
    >)
        requires
            old(self).inv(),
        ensures
            final(self).items_model() == old(self).items_model(),
            final(self).urls_view() == old(self).urls_view(),
            final(self).inv(),
            final(self).cache_model() is Some,
            r is Err <==> !regex_compiles(re@),
            r matches Err(e) ==> ({
                if regex_too_big(re@) {
                    e matches ShiftError::RegexCompiledTooBig { pattern, .. } && pattern@ == re@
                } else {
                    e matches ShiftError::RegexSyntax { pattern } && pattern@ == re@
                }
            }),
            r matches Ok(o) ==> ({
                let c = final(self).cache_model()->Some_0;
                let m = lines_regex(c, final(self).urls_view(), re@, all, c.len() as int);
                match o {
                    Some(v) => m.len() > 0 && v@ == m,
                    None => m.len() == 0,
                }
            }),
    {
        if self.shifts.is_none() {
            self.process();
        }
        let compiled = match CompiledRegex::compile(re) {
            Ok(cr) => cr,
            Err(e) => {
                return Err(e);
            },
        };
        let ghost c = self.cache_model()->Some_0;
        let n = self.shifts.as_ref().unwrap().len();
        let mut res: Vec<usize> = Vec::new();
        let mut i: usize = 0;
        while i < n
            invariant
                i <= n,
                n == c.len(),
                self.inv(),
                self.cache_model() == Some(c),
                compiled.pattern_view() == re@,
                res@ == lines_regex(c, self.urls_view(), re@, all, i as int),
            decreases n - i,
        {
            let shifts = self.shifts.as_ref().unwrap();
            let entry = &shifts[i];
            proof {
                assert(entry@ == c[i as int]);
            }
            let mut text = entry.desc.clone();
            if all {
                let us = self.resolve_display(entry.url_id);
                proof {
                    reveal_strlit(" ");
                }
                text.append(" ");
                text.append(us.as_str());
            }
            proof {
                assert(text@ =~= entry_text(c[i as int], self.urls_view(), all));
            }
            if compiled.is_match(text.as_str()) {
                res.push(i);
            }
            i = i + 1;
        }
        if res.len() == 0 {
            Ok(None)
        } else {
            Ok(Some(res))
        }
    }
}

} // verus!

//! The single-line cyclic-shift index: URL extraction, lazy building of the
//! sorted rotation set, lookup, and search.

use crate::collate::bytes_of;
use crate::color::{colored, Color};
use crate::errors::ShiftError;
use crate::regex_api::{regex_compiles, regex_match, regex_too_big, CompiledRegex};
use crate::rotate::{join_words, rotated, shift_seq, Direction, RapidShifterIter};
use crate::sort::{sort_strings, sorted};
use crate::text::{
    chars_of, contains_char, contains_sub, find_last_space, is_substring, is_url, last_space,
    ordinal_string, padded_ordinal, split_words, trim, trim_spec, url_token, views_of, words_of,
};
use vstd::prelude::*;

verus! {

/// The description part of a raw input line: the trimmed line, less its
/// trailing URL token when the token after the last space is one.
pub open spec fn spec_desc(raw: Seq<char>) -> Seq<char> {
    let t = trim_spec(raw);
    let l = last_space(t);
    if l >= 0 && is_url(t.skip(l + 1)) {
        t.take(l)
    } else {
        t
    }
}

/// The URL token split off a raw input line: the token after the last space
/// of the trimmed line, when it matches the URL grammar.
pub open spec fn spec_url(raw: Seq<char>) -> Option<Seq<char>> {
    let t = trim_spec(raw);
    let l = last_space(t);
    if l >= 0 && is_url(t.skip(l + 1)) {
        Some(t.skip(l + 1))
    } else {
        None
    }
}

/// Splits a raw line into its description and its trailing URL token, if the
/// token after the last space of the trimmed line is one.
pub fn split_trailing_url(raw: &str) -> (r: (String, Option<String>))
    ensures
        r.0@ == spec_desc(raw@),
        match r.1 {
            Some(u) => spec_url(raw@) == Some(u@),
            None => spec_url(raw@) is None,
        },
{
    let t = trim(raw);
    let tv = chars_of(t);
    let n = t.unicode_len();
    match find_last_space(&tv) {
        Some(l) => {
            proof {
                crate::text::lemma_last_space(t@);
            }
            let tail = t.substring_char(l + 1, n);
            proof {
                assert(t@.subrange(l as int + 1, n as int) =~= t@.skip(l as int + 1));
            }
            if url_token(tail) {
                let head = t.substring_char(0, l);
                proof {
                    assert(t@.subrange(0, l as int) =~= t@.take(l as int));
                }
                (head.to_owned(), Some(tail.to_owned()))
            } else {
                (t.to_owned(), None)
            }
        },
        None => (t.to_owned(), None),
    }
}

/// The placeholder shown where an entry has no URL.
pub open spec fn none_marker() -> Seq<char> {
    seq!['<', 'N', 'o', 'n', 'e', '>']
}

/// The URL text shown for an entry: the URL itself, or the placeholder.
pub open spec fn url_display(url: Option<Seq<char>>) -> Seq<char> {
    match url {
        Some(u) => u,
        None => none_marker(),
    }
}

/// The URL, or the empty string: what the search's URL fast path scans.
pub open spec fn url_or_empty(url: Option<Seq<char>>) -> Seq<char> {
    match url {
        Some(u) => u,
        None => Seq::empty(),
    }
}

/// The indices among the first `n` entries of `shifts` whose entry, extended
/// by `suffix`, holds `pat` as a substring, in increasing order.
pub open spec fn matching_indices(
    shifts: Seq<Seq<char>>,
    pat: Seq<char>,
    suffix: Seq<char>,
    n: int,
) -> Seq<usize>
    decreases n,
{
    if n <= 0 {
        Seq::empty()
    } else if is_substring(pat, shifts[n - 1] + suffix) {
        matching_indices(shifts, pat, suffix, n - 1).push((n - 1) as usize)
    } else {
        matching_indices(shifts, pat, suffix, n - 1)
    }
}

/// The indices among the first `n` entries of `shifts` whose entry, extended
/// by `suffix`, the regular expression `pat` matches, in increasing order.
pub open spec fn regex_indices(
    shifts: Seq<Seq<char>>,
    pat: Seq<char>,
    suffix: Seq<char>,
    n: int,
) -> Seq<usize>
    decreases n,
{
    if n <= 0 {
        Seq::empty()
    } else if regex_match(pat, shifts[n - 1] + suffix) {
        regex_indices(shifts, pat, suffix, n - 1).push((n - 1) as usize)
    } else {
        regex_indices(shifts, pat, suffix, n - 1)
    }
}

/// The suffix a search appends to each rotation: a space and the displayed
/// URL when the URL is searched too, nothing otherwise.
pub open spec fn search_suffix(url: Option<Seq<char>>, all: bool) -> Seq<char> {
    if all {
        seq![' '] + url_display(url)
    } else {
        Seq::empty()
    }
}

/// What a search returns, given the line's description and URL, the sorted
/// rotations, the pattern and the URL switch.  Two fast paths report every
/// position: a pattern inside the URL (when the URL is searched), and a
/// space-free pattern inside the description, which recurs in every rotation.
/// A pattern strictly longer than the scanned text reports no match outright,
/// on the UTF-8 byte lengths of description, suffix and pattern (compared at
/// machine width, as the running code compares them).  Otherwise the
/// rotations are scanned.  Zero matches are an absent result, never an empty
/// collection: on an index with no rotations every path reports absence.
pub open spec fn search_spec(
    desc: Seq<char>,
    url: Option<Seq<char>>,
    shifts: Seq<Seq<char>>,
    pat: Seq<char>,
    all: bool,
) -> Option<Seq<usize>> {
    if (all && is_substring(pat, url_or_empty(url))) || (!pat.contains(' ') && is_substring(
        pat,
        desc,
    )) {
        if shifts.len() == 0 {
            None
        } else {
            Some(Seq::new(shifts.len(), |i: int| i as usize))
        }
    } else {
        let suffix = search_suffix(url, all);
        if (!all && (bytes_of(desc).len() as usize) < (bytes_of(pat).len() as usize)) || (all && (
        bytes_of(desc).len() as usize) + (bytes_of(suffix).len() as usize) < (bytes_of(
            pat,
        ).len() as usize)) {
            None
        } else {
            let m = matching_indices(shifts, pat, suffix, shifts.len() as int);
            if m.len() == 0 {
                None
            } else {
                Some(m)
            }
        }
    }
}

/// A search pattern without spaces that occurs verbatim in the description
/// occurs in every rotation: on an index with at least one rotation, the
/// search reports every position.  (With no rotations there are no matching
/// positions, and the search reports absence.)
pub proof fn lemma_word_pattern_matches_all(
    desc: Seq<char>,
    url: Option<Seq<char>>,
    shifts: Seq<Seq<char>>,
    pat: Seq<char>,
    all: bool,
)
    requires
        shifts.len() > 0,
        !pat.contains(' '),
        is_substring(pat, desc),
    ensures
        search_spec(desc, url, shifts, pat, all) == Some(
            Seq::new(shifts.len(), |i: int| i as usize),
        ),
{
}

/// The display line for the entry at position `i`: in verbose form a
/// bracketed 1-based zero-padded ordinal coloured purple, then the rotation
/// coloured blue, a space, and the URL text coloured yellow; in plain form
/// the rotation, a space, and the URL text.
pub open spec fn display_line(i: int, shift: Seq<char>, u: Seq<char>, verbose: bool) -> Seq<
    char,
> {
    if verbose {
        colored(Color::Purple, seq!['['] + padded_ordinal((i + 1) as nat) + seq![']', ' '])
            + colored(Color::Blue, shift) + seq![' '] + colored(Color::Yellow, u)
    } else {
        shift + seq![' '] + u
    }
}

/// Builds the displayed text of the URL: the URL itself, or the placeholder.
pub fn url_display_string(url: &Option<String>) -> (r: String)
    ensures
        r@ == url_display(
            match url {
                Some(u) => Some(u@),
                None => None,
            },
        ),
{
    match url {
        Some(u) => u.clone(),
        None => {
            proof {
                reveal_strlit("<None>");
            }
            let r = String::from_str("<None>");
            proof {
                assert(r@ =~= none_marker());
            }
            r
        },
    }
}

/// Builds the display line for the entry `shift` at position `i`.
pub fn build_display_line(i: usize, shift: &String, u: &String, verbose: bool) -> (r: String)
    requires
        i < usize::MAX,
    ensures
        r@ == display_line(i as int, shift@, u@, verbose),
{
    if verbose {
        proof {
            reveal_strlit("[");
            reveal_strlit("] ");
            reveal_strlit(" ");
        }
        let mut ord = String::from_str("[");
        let ns = ordinal_string(i + 1);
        ord.append(ns.as_str());
        ord.append("] ");
        proof {
            assert(ord@ =~= seq!['['] + padded_ordinal((i + 1) as nat) + seq![']', ' ']);
        }
        let mut line = Color::Purple.color(ord.as_str());
        let blue = Color::Blue.color(shift.as_str());
        let yellow = Color::Yellow.color(u.as_str());
        line.append(blue.as_str());
        line.append(" ");
        line.append(yellow.as_str());
        proof {
            assert(line@ =~= display_line(i as int, shift@, u@, verbose));
        }
        line
    } else {
        proof {
            reveal_strlit(" ");
        }
        let mut line = shift.clone();
        line.append(" ");
        line.append(u.as_str());
        proof {
            assert(line@ =~= display_line(i as int, shift@, u@, verbose));
        }
        line
    }
}

/// The full left-direction rotation set of the words of `desc`, one entry
/// per word, in emission order.
pub fn line_rotations(desc: &str) -> (r: Vec<String>)
    ensures
        views_of(r@) == shift_seq(
            words_of(desc@),
            Direction::Left,
            words_of(desc@).len(),
        ),
{
    let words = split_words(desc);
    let ghost ws0 = words_of(desc@);
    let n = words.len();
    let mut refs: Vec<&str> = Vec::new();
    let mut i: usize = 0;
    while i < n
        invariant
            i <= n,
            n == words@.len(),
            refs@.len() == i,
            crate::rotate::str_views(refs@) =~= views_of(words@).take(i as int),
        decreases n - i,
    {
        let ghost old_refs = refs@;
        let w = words[i].as_str();
        refs.push(w);
        proof {
            assert(refs@ == old_refs.push(w));
            assert(w@ == views_of(words@)[i as int]);
            assert forall|j: int|
                0 <= j < i + 1 implies crate::rotate::str_views(refs@)[j] == views_of(
                words@,
            ).take(i as int + 1)[j] by {
                if j < i {
                    assert(refs@[j] == old_refs[j]);
                    assert(crate::rotate::str_views(old_refs)[j] == views_of(words@).take(
                        i as int,
                    )[j]);
                } else {
                    assert(refs@[j] == w);
                }
            }
            assert(crate::rotate::str_views(refs@) =~= views_of(words@).take(i as int + 1));
        }
        i = i + 1;
    }
    proof {
        assert(views_of(words@).take(n as int) =~= views_of(words@));
        assert(views_of(words@) == ws0);
    }
    let mut iter = RapidShifterIter::new(refs, None, Direction::Left);
    let mut shifts: Vec<String> = Vec::new();
    let mut k: usize = 0;
    while k < n
        invariant
            k <= n,
            n == ws0.len(),
            iter.words() == rotated(ws0, Direction::Left, k as nat),
            iter.words().len() == n,
            iter.remaining() == n - k,
            iter.dir() == Direction::Left,
            views_of(shifts@) =~= shift_seq(ws0, Direction::Left, k as nat),
        decreases n - k,
    {
        let ghost prev_words = iter.words();
        let ghost prev_emitted = views_of(shifts@);
        let r = iter.next();
        if let Some(s) = r {
            let ghost sv = s@;
            shifts.push(s);
            proof {
                assert(iter.words() == crate::rotate::rotate_left1(prev_words));
                assert(rotated(ws0, Direction::Left, k as nat + 1)
                    == crate::rotate::rotate_left1(rotated(ws0, Direction::Left, k as nat)));
                assert(sv == join_words(rotated(ws0, Direction::Left, k as nat + 1)));
                assert(views_of(shifts@) =~= prev_emitted.push(sv));
                assert(shift_seq(ws0, Direction::Left, k as nat + 1) =~= prev_emitted.push(sv));
            }
        }
        k = k + 1;
    }
    proof {
        assert(views_of(shifts@) =~= shift_seq(ws0, Direction::Left, n as nat));
    }
    shifts
}

/// A single line's cyclic-shift index.  The line is split into a description
/// and an optional trailing URL at construction; the sorted rotation set is
/// built lazily, on the first access that needs it, and cached.
#[derive(Debug)]
pub struct RapidShifter {
    desc: String,
    url: Option<String>,
    shifts: Option<Vec<String>>,
}

impl RapidShifter {
    /// The description the index was built from.
    pub closed spec fn desc_view(self) -> Seq<char> {
        self.desc@
    }

    /// The URL split off the input, if any.
    pub closed spec fn url_view(self) -> Option<Seq<char>> {
        match self.url {
            Some(u) => Some(u@),
            None => None,
        }
    }

    /// The cached sorted rotations, if built.
    pub closed spec fn cache_view(self) -> Option<Seq<Seq<char>>> {
        match self.shifts {
            Some(v) => Some(views_of(v@)),
            None => None,
        }
    }

    /// The full-length left rotation set of the description's words, in
    /// emission order.
    pub open spec fn rotation_set(self) -> Seq<Seq<char>> {
        shift_seq(
            words_of(self.desc_view()),
            Direction::Left,
            words_of(self.desc_view()).len(),
        )
    }

    /// A built cache holds exactly the rotation set, in collation order.
    pub open spec fn inv(self) -> bool {
        match self.cache_view() {
            Some(c) => sorted(c) && c.to_multiset() == self.rotation_set().to_multiset(),
            None => true,
        }
    }

    /// Builds the index for one raw line: the line is trimmed, a trailing
    /// URL token is split off, and no rotations are built yet.
    pub fn new(desc: String) -> (r: RapidShifter)
        ensures
            r.inv(),
            r.desc_view() == spec_desc(desc@),
            r.url_view() == spec_url(desc@),
            r.cache_view() is None,
    {
        let (d, url) = split_trailing_url(desc.as_str());
        RapidShifter { desc: d, url, shifts: None }
    }

    /// The description the index holds.
    pub fn desc(&self) -> (r: &String)
        ensures
            r@ == self.desc_view(),
    {
        &self.desc
    }

    /// The URL split off the input, if any.
    pub fn url(&self) -> (r: &Option<String>)
        ensures
            match r {
                Some(u) => self.url_view() == Some(u@),
                None => self.url_view() is None,
            },
    {
        &self.url
    }

    /// Generates the description's full rotation set, sorts it under the
    /// collation rule and caches it, replacing any earlier cache.
    pub fn process(&mut self)
        ensures
            final(self).desc_view() == old(self).desc_view(),
            final(self).url_view() == old(self).url_view(),
            final(self).inv(),
            final(self).cache_view() is Some,
    {
        let shifts = line_rotations(self.desc.as_str());
        let sorted_shifts = sort_strings(shifts);
        self.shifts = Some(sorted_shifts);
    }


    /// The sorted rotation set, building it first when absent.
    pub fn shifts(&mut self) -> (r: &Vec<String>)
        requires
            old(self).inv(),
        ensures
            final(self).desc_view() == old(self).desc_view(),
            final(self).url_view() == old(self).url_view(),
            final(self).inv(),
            final(self).cache_view() == Some(views_of(r@)),
    {
        if self.shifts.is_none() {
            self.process();
        }
        self.shifts.as_ref().unwrap()
    }

    /// The rotation at `index` followed by a space and the displayed URL;
    /// out-of-range access is reported as an error, for any index at or
    /// beyond the rotation count.
    pub fn get(&mut self, index: usize) -> (r: Result<String, ShiftError>)
        requires
            old(self).inv(),
        ensures
            final(self).desc_view() == old(self).desc_view(),
            final(self).url_view() == old(self).url_view(),
            final(self).inv(),
            final(self).cache_view() is Some,
            ({
                let c = final(self).cache_view()->Some_0;
                if index < c.len() {
                    r matches Ok(s) && s@ == c[index as int] + seq![' '] + url_display(
                        final(self).url_view(),
                    )
                } else {
                    r == Result::<String, ShiftError>::Err(ShiftError::OutOfRange)
                }
            }),
    {
        if self.shifts.is_none() {
            self.process();
        }
        let shifts = self.shifts.as_ref().unwrap();
        if index >= shifts.len() {
            return Err(ShiftError::OutOfRange);
        }
        let mut out = shifts[index].clone();
        proof {
            reveal_strlit(" ");
            reveal_strlit("<None>");
        }
        out.append(" ");
        match &self.url {
            Some(u) => out.append(u.as_str()),
            None => out.append("<None>"),
        }
        proof {
            let c = self.cache_view()->Some_0;
            assert(out@ =~= c[index as int] + seq![' '] + url_display(self.url_view()));
        }
        Ok(out)
    }

    /// The display lines of every rotation, in order: each is the rotation
    /// and the displayed URL, in the plain or the verbose form.
    pub fn render_all(&mut self, verbose: bool) -> (r: Vec<String>)
        requires
            old(self).inv(),
        ensures
            final(self).desc_view() == old(self).desc_view(),
            final(self).url_view() == old(self).url_view(),
            final(self).inv(),
            final(self).cache_view() is Some,
            ({
                let c = final(self).cache_view()->Some_0;
                let u = url_display(final(self).url_view());
                r@.len() == c.len() && forall|i: int|
                    0 <= i < c.len() ==> #[trigger] r@[i]@ == display_line(i, c[i], u, verbose)
            }),
    {
        if self.shifts.is_none() {
            self.process();
        }
        let us = url_display_string(&self.url);
        let ghost c = self.cache_view()->Some_0;
        let shifts = self.shifts.as_ref().unwrap();
        let n = shifts.len();
        let mut out: Vec<String> = Vec::new();
        let mut i: usize = 0;
        while i < n
            invariant
                i <= n,
                n == c.len(),
                views_of(shifts@) == c,
                us@ == url_display(self.url_view()),
                out@.len() == i,
                forall|j: int|
                    0 <= j < i ==> #[trigger] out@[j]@ == display_line(
                        j,
                        c[j],
                        us@,
                        verbose,
                    ),
            decreases n - i,
        {
            let line = build_display_line(i, &shifts[i], &us, verbose);
            out.push(line);
            i = i + 1;
        }
        out
    }

    /// Searches the rotations for `pat` as a literal substring; when `all` is
    /// set, each scanned entry carries a space and the displayed URL, and a
    /// pattern found in the URL matches every position.  Reports the matching
    /// positions in increasing order, or an absent result when nothing
    /// matches.
    pub fn search(&mut self, pat: String, all: bool) -> (r: Option<Vec<usize>>)
        requires
            old(self).inv(),
        ensures
            final(self).desc_view() == old(self).desc_view(),
            final(self).url_view() == old(self).url_view(),
            final(self).inv(),
            final(self).cache_view() is Some,
            ({
                let spec_r = search_spec(
                    final(self).desc_view(),
                    final(self).url_view(),
                    final(self).cache_view()->Some_0,
                    pat@,
                    all,
                );
                match r {
                    Some(v) => spec_r == Some(v@),
                    None => spec_r is None,
                }
            }),
    {
        if self.shifts.is_none() {
            self.process();
        }
        let pat_chars = chars_of(pat.as_str());
        let desc_chars = chars_of(self.desc.as_str());
        let url_oe: Vec<char> = match &self.url {
            Some(u) => chars_of(u.as_str()),
            None => Vec::new(),
        };
        proof {
            assert(url_oe@ == url_or_empty(self.url_view()));
        }
        let shifts = self.shifts.as_ref().unwrap();
        let n = shifts.len();
        if (all && contains_sub(&url_oe, &pat_chars)) || (!contains_char(&pat_chars, ' ')
            && contains_sub(&desc_chars, &pat_chars)) {
            if n == 0 {
                return None;
            }
            let mut res: Vec<usize> = Vec::new();
            let mut i: usize = 0;
            while i < n
                invariant
                    i <= n,
                    res@ =~= Seq::new(i as nat, |q: int| q as usize),
                decreases n - i,
            {
                res.push(i);
                proof {
                    assert(res@ =~= Seq::new(i as nat + 1, |q: int| q as usize));
                }
                i = i + 1;
            }
            return Some(res);
        }
        proof {
            reveal_strlit(" ");
            reveal_strlit("<None>");
        }
        let mut sfx = String::new();
        if all {
            sfx.append(" ");
            match &self.url {
                Some(u) => sfx.append(u.as_str()),
                None => sfx.append("<None>"),
            }
        }
        proof {
            assert(sfx@ =~= search_suffix(self.url_view(), all));
        }
        let desc_len = self.desc.as_str().len();
        let pat_len = pat.as_str().len();
        let sfx_len = sfx.as_str().len();
        if (!all && desc_len < pat_len) || (all && (desc_len as u128 + sfx_len as u128)
            < pat_len as u128) {
            return None;
        }
        let sfx_chars = chars_of(sfx.as_str());
        let ghost c = self.cache_view()->Some_0;
        let mut res: Vec<usize> = Vec::new();
        let mut i: usize = 0;
        while i < n
            invariant
                i <= n,
                n == c.len(),
                self.shifts matches Some(v) && views_of(v@) == c,
                sfx_chars@ == sfx@,
                sfx@ == search_suffix(self.url_view(), all),
                pat_chars@ == pat@,
                res@ == matching_indices(c, pat@, sfx@, i as int),
            decreases n - i,
        {
            let shifts = self.shifts.as_ref().unwrap();
            let mut text = shifts[i].clone();
            text.append(sfx.as_str());
            let text_chars = chars_of(text.as_str());
            proof {
                assert(text_chars@ == c[i as int] + sfx@);
            }
            if contains_sub(&text_chars, &pat_chars) {
                res.push(i);
            }
            i = i + 1;
        }
        if res.len() == 0 {
            None
        } else {
            Some(res)
        }
    }

    /// Searches the rotations with a regular expression; when `all` is set,
    /// each scanned entry carries a space and the displayed URL.  A pattern
    /// that does not compile is reported as the corresponding error; no
    /// matches at all is an ordinary absent result.
    pub fn regex_search(&mut self, re: &str, all: bool) -> (r: Result<
        Option<Vec<usize>>,
        ShiftError,
    >)
        requires
            old(self).inv(),
        ensures
            final(self).desc_view() == old(self).desc_view(),
            final(self).url_view() == old(self).url_view(),
            final(self).inv(),
            final(self).cache_view() is Some,
            r is Err <==> !regex_compiles(re@),
            r matches Err(e) ==> ({
                if regex_too_big(re@) {
                    e matches ShiftError::RegexCompiledTooBig { pattern, .. } && pattern@ == re@
                } else {
                    e matches ShiftError::RegexSyntax { pattern } && pattern@ == re@
                }
            }),
            r matches Ok(o) ==> ({
                let m = regex_indices(
                    final(self).cache_view()->Some_0,
                    re@,
                    search_suffix(final(self).url_view(), all),
                    final(self).cache_view()->Some_0.len() as int,
                );
                match o {
                    Some(v) => m.len() > 0 && v@ == m,
                    None => m.len() == 0,
                }
            }),
    {
        if self.shifts.is_none() {
            self.process();
        }
        let compiled = match CompiledRegex::compile(re) {
            Ok(cr) => cr,
            Err(e) => {
                return Err(e);
            },
        };
        proof {
            reveal_strlit(" ");
            reveal_strlit("<None>");
        }
        let mut sfx = String::new();
        if all {
            sfx.append(" ");
            match &self.url {
                Some(u) => sfx.append(u.as_str()),
                None => sfx.append("<None>"),
            }
        }
        proof {
            assert(sfx@ =~= search_suffix(self.url_view(), all));
        }
        let ghost c = self.cache_view()->Some_0;
        let n = self.shifts.as_ref().unwrap().len();
        let mut res: Vec<usize> = Vec::new();
        let mut i: usize = 0;
        while i < n
            invariant
                i <= n,
                n == c.len(),
                self.shifts matches Some(v) && views_of(v@) == c,
                sfx@ == search_suffix(self.url_view(), all),
                compiled.pattern_view() == re@,
                res@ == regex_indices(c, re@, sfx@, i as int),
            decreases n - i,
        {
            let shifts = self.shifts.as_ref().unwrap();
            let mut text = shifts[i].clone();
            text.append(sfx.as_str());
            proof {
                assert(text@ =~= c[i as int] + sfx@);
            }
            if compiled.is_match(text.as_str()) {
                res.push(i);
            }
            i = i + 1;
        }
        if res.len() == 0 {
            Ok(None)
        } else {
            Ok(Some(res))
        }
    }
}

} // verus!

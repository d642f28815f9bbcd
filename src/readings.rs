use vstd::prelude::*;
use vstd::string::StrSliceExecFns;

use std::collections::HashMap;

use crate::japanese::{chars_of, string_of_chars, views};
use crate::matcher::{is_prefix, mode_matches, SearchMode};

verus! {

// ---------------------------------------------------------------------------
// Reading notation. A kun reading such as `た.べる` marks the end of the part
// that the kanji spells with a dot; a leading or trailing `-` marks that the
// kanji stands at the end or at the start of a word.
// ---------------------------------------------------------------------------

/// `s` without its `-` marks.
pub open spec fn undashed(s: Seq<char>) -> Seq<char>
    decreases s.len(),
{
    if s.len() == 0 {
        s
    } else if s.last() == '-' {
        undashed(s.drop_last())
    } else {
        undashed(s.drop_last()).push(s.last())
    }
}

/// `s` without its `-` and `.` marks: the reading as it is spoken.
pub open spec fn unmarked(s: Seq<char>) -> Seq<char>
    decreases s.len(),
{
    if s.len() == 0 {
        s
    } else if s.last() == '-' || s.last() == '.' {
        unmarked(s.drop_last())
    } else {
        unmarked(s.drop_last()).push(s.last())
    }
}

/// The part of `s` before its first `.` (all of `s` if it has none).
pub open spec fn before_dot(s: Seq<char>) -> Seq<char>
    decreases s.len(),
{
    if s.len() == 0 {
        s
    } else if s[0] == '.' {
        Seq::empty()
    } else {
        seq![s[0]] + before_dot(s.drop_first())
    }
}

/// The part of a reading that the kanji itself spells, without marks.
pub open spec fn literal_part(kun: Seq<char>) -> Seq<char> {
    undashed(before_dot(kun))
}

proof fn lemma_before_dot(s: Seq<char>, d: int)
    requires
        0 <= d <= s.len(),
        forall|j: int| 0 <= j < d ==> s[j] != '.',
        d == s.len() || s[d] == '.',
    ensures
        before_dot(s) == s.subrange(0, d),
    decreases s.len(),
{
    if s.len() == 0 {
        assert(s.subrange(0, d) =~= s);
    } else if d == 0 {
        assert(s.subrange(0, d) =~= Seq::<char>::empty());
    } else {
        let t = s.drop_first();
        assert forall|j: int| 0 <= j < d - 1 implies t[j] != '.' by {
            assert(t[j] == s[j + 1]);
        }
        lemma_before_dot(t, d - 1);
        assert(s.subrange(0, d) =~= seq![s[0]] + t.subrange(0, d - 1));
    }
}

/// Keeps the chars of `v[..hi]` that are not `-` (nor `.`, if `dots`).
fn strip_marks(v: &Vec<char>, hi: usize, dots: bool) -> (r: Vec<char>)
    requires
        hi <= v@.len(),
    ensures
        dots ==> r@ == unmarked(v@.subrange(0, hi as int)),
        !dots ==> r@ == undashed(v@.subrange(0, hi as int)),
{
    let mut r: Vec<char> = Vec::new();
    let mut i: usize = 0;
    while i < hi
        invariant
            hi <= v@.len(),
            i <= hi,
            dots ==> r@ == unmarked(v@.subrange(0, i as int)),
            !dots ==> r@ == undashed(v@.subrange(0, i as int)),
        decreases hi - i,
    {
        assert(v@.subrange(0, i + 1).drop_last() =~= v@.subrange(0, i as int));
        assert(v@.subrange(0, i + 1).last() == v@[i as int]);
        let c = v[i];
        if c == '-' || (dots && c == '.') {
        } else {
            r.push(c);
        }
        i = i + 1;
    }
    r
}

/// The part of a kun reading that the kanji spells: `-` marks removed, and
/// everything from the first `.` on cut off (`た.べる` gives `た`).
pub fn literal_reading(kun: &str) -> (r: String)
    ensures
        r@ == literal_part(kun@),
{
    let v = chars_of(kun);
    let mut d: usize = 0;
    while d < v.len() && v[d] != '.'
        invariant
            d <= v@.len(),
            forall|j: int| 0 <= j < d ==> v@[j] != '.',
        decreases v@.len() - d,
    {
        d = d + 1;
    }
    proof {
        lemma_before_dot(v@, d as int);
    }
    let out = strip_marks(&v, d, false);
    string_of_chars(&out)
}

/// Length in characters of a reading as it is spoken, marks removed.
pub fn len(kun: &str) -> (r: usize)
    ensures
        r == unmarked(kun@).len(),
{
    let v = chars_of(kun);
    let out = strip_marks(&v, v.len(), true);
    assert(v@.subrange(0, v@.len() as int) =~= v@);
    out.len()
}

/// The match mode for a kun reading: a reading that starts with `-` may have
/// anything before it; one that ends with `-`, or whose word starts with the
/// kanji, may have anything after it; any other must match exactly.
pub open spec fn kun_mode(kun: Seq<char>, kanji_reading: Seq<char>, literal: Seq<char>) -> SearchMode {
    if kun.len() > 0 && kun[0] == '-' {
        SearchMode::LeftVariable
    } else if (kun.len() > 0 && kun.last() == '-') || is_prefix(literal, kanji_reading) {
        SearchMode::RightVariable
    } else {
        SearchMode::Exact
    }
}

/// A kun reading matches a word when its spoken form matches the word's kana
/// reading under the reading's mode.
pub open spec fn kun_matches(
    literal: Seq<char>,
    kun: Seq<char>,
    kana_reading: Seq<char>,
    kanji_reading: Seq<char>,
) -> bool {
    mode_matches(kun_mode(kun, kanji_reading, literal), unmarked(kun), kana_reading)
}

/// Whether the kun reading `kun` of the kanji `literal` is the one that the
/// word written `kanji_reading` and read `kana_reading` uses.
pub fn matches_kanji(literal: &str, kun: &str, kana_reading: &str, kanji_reading: &str) -> (r:
    bool)
    ensures
        r == kun_matches(literal@, kun@, kana_reading@, kanji_reading@),
{
    let v = chars_of(kun);
    let lit = chars_of(literal);
    let word = chars_of(kanji_reading);
    let kana = chars_of(kana_reading);
    let mode = if v.len() > 0 && v[0] == '-' {
        SearchMode::LeftVariable
    } else if (v.len() > 0 && v[v.len() - 1] == '-') || SearchMode::RightVariable.matches_chars(
        &lit,
        &word,
    ) {
        SearchMode::RightVariable
    } else {
        SearchMode::Exact
    };
    let spoken = strip_marks(&v, v.len(), true);
    assert(v@.subrange(0, v@.len() as int) =~= v@);
    mode.matches_chars(&spoken, &kana)
}

// ---------------------------------------------------------------------------
// Dictionary rows and the per-run cache
// ---------------------------------------------------------------------------

/// One reading of a dictionary entry. Rows that share `sequence` form one
/// lexical item: one row is its kanji form (`kanji`), one its kana form.
#[derive(Debug, Clone)]
pub struct Dict {
    pub sequence: i32,
    pub reading: String,
    pub kanji: bool,
    /// Number of lexical-priority markers the row carries.
    pub priority_count: usize,
    /// Proficiency level, if known.
    pub jlpt_lvl: Option<i32>,
}

/// Dictionary rows fetched during one rebuild, grouped by entry, so that no
/// entry is fetched twice.
pub struct DictCache {
    entries: HashMap<i32, Vec<Dict>>,
}

/// The rows of entry `g` in `groups`, in the order they were added.
pub open spec fn group_rows(groups: Map<i32, Seq<Dict>>, g: i32) -> Seq<Dict> {
    if groups.contains_key(g) {
        groups[g]
    } else {
        Seq::empty()
    }
}

/// `groups` with row `d` added at the end of its entry's group.
pub open spec fn add_row(groups: Map<i32, Seq<Dict>>, d: Dict) -> Map<i32, Seq<Dict>> {
    groups.insert(d.sequence, group_rows(groups, d.sequence).push(d))
}

/// `groups` with `rows` added one by one.
pub open spec fn add_rows(groups: Map<i32, Seq<Dict>>, rows: Seq<Dict>) -> Map<i32, Seq<Dict>>
    decreases rows.len(),
{
    if rows.len() == 0 {
        groups
    } else {
        add_row(add_rows(groups, rows.drop_last()), rows.last())
    }
}

/// The ids of `ids` that have no group in `groups`, each once, in order.
pub open spec fn missing_ids(ids: Seq<i32>, groups: Map<i32, Seq<Dict>>) -> Seq<i32>
    decreases ids.len(),
{
    if ids.len() == 0 {
        Seq::empty()
    } else {
        let r = missing_ids(ids.drop_last(), groups);
        let g = ids.last();
        if groups.contains_key(g) || r.contains(g) {
            r
        } else {
            r.push(g)
        }
    }
}

impl DictCache {
    /// The cached rows, grouped by entry.
    pub closed spec fn view(&self) -> Map<i32, Seq<Dict>> {
        self.entries@.map_values(|v: Vec<Dict>| v@)
    }

    /// An empty cache.
    pub fn new() -> (r: DictCache)
        ensures
            r.view() == Map::<i32, Seq<Dict>>::empty(),
    {
        let r = DictCache { entries: HashMap::new() };
        assert(r.view() =~= Map::<i32, Seq<Dict>>::empty());
        r
    }

    /// Adds the rows of freshly fetched entries, each to its entry's group.
    pub fn insert(&mut self, rows: Vec<Dict>)
        ensures
            final(self).view() == add_rows(old(self).view(), rows@),
    {
        broadcast use vstd::std_specs::hash::group_hash_axioms;

        let ghost start = self.view();
        let ghost all = rows@;
        let mut rows = rows;
        let n = rows.len();
        let mut i: usize = 0;
        while rows.len() > 0
            invariant
                n == all.len(),
                i + rows@.len() == all.len(),
                rows@ == all.subrange(i as int, all.len() as int),
                self.view() == add_rows(start, all.subrange(0, i as int)),
            decreases rows@.len(),
        {
            let d = rows.remove(0);
            assert(d == all[i as int]);
            assert(all.subrange(0, i + 1).drop_last() =~= all.subrange(0, i as int));
            let g = d.sequence;
            let ghost before = self.view();
            let mut group = match self.entries.remove(&g) {
                Some(v) => v,
                None => Vec::new(),
            };
            assert(group@ == group_rows(before, g));
            group.push(d);
            self.entries.insert(g, group);
            assert(self.view() =~= add_row(before, d));
            i = i + 1;
            assert(rows@ =~= all.subrange(i as int, all.len() as int));
        }
        assert(all.subrange(0, i as int) =~= all);
    }

    /// Whether rows of entry `g` are cached.
    pub fn contains(&self, g: i32) -> (r: bool)
        ensures
            r == self.view().contains_key(g),
    {
        broadcast use vstd::std_specs::hash::group_hash_axioms;

        self.entries.contains_key(&g)
    }

    /// The rows of entry `g`, in the order they were added.
    pub fn rows_of(&self, g: i32) -> (r: Option<&Vec<Dict>>)
        ensures
            r matches Some(v) ==> self.view().contains_key(g) && v@ == self.view()[g],
            r is None ==> !self.view().contains_key(g),
    {
        broadcast use vstd::std_specs::hash::group_hash_axioms;

        self.entries.get(&g)
    }

    /// The entries of `ids` that still have to be fetched: each id once, in
    /// order, leaving out those already cached.
    pub fn missing(&self, ids: &Vec<i32>) -> (r: Vec<i32>)
        ensures
            r@ == missing_ids(ids@, self.view()),
    {
        let mut r: Vec<i32> = Vec::new();
        let mut i: usize = 0;
        while i < ids.len()
            invariant
                i <= ids@.len(),
                r@ == missing_ids(ids@.subrange(0, i as int), self.view()),
            decreases ids@.len() - i,
        {
            let ghost pre = ids@.subrange(0, i as int);
            assert(ids@.subrange(0, i + 1).drop_last() =~= pre);
            let g = ids[i];
            if !self.contains(g) && !contains_id(&r, g) {
                r.push(g);
            }
            i = i + 1;
        }
        assert(ids@.subrange(0, ids@.len() as int) =~= ids@);
        r
    }
}

fn contains_id(v: &Vec<i32>, g: i32) -> (r: bool)
    ensures
        r == v@.contains(g),
{
    let mut i: usize = 0;
    while i < v.len()
        invariant
            i <= v@.len(),
            forall|j: int| 0 <= j < i ==> v@[j] != g,
        decreases v@.len() - i,
    {
        if v[i] == g {
            return true;
        }
        i = i + 1;
    }
    false
}

// ---------------------------------------------------------------------------
// Candidate words for the kun readings of one kanji
// ---------------------------------------------------------------------------

/// Row `i` is the first row of entry `g` with kanji flag `k`.
pub open spec fn is_first_row(rows: Seq<Dict>, g: i32, k: bool, i: int) -> bool {
    &&& 0 <= i < rows.len()
    &&& rows[i].sequence == g && rows[i].kanji == k
    &&& forall|j: int| 0 <= j < i ==> !(rows[j].sequence == g && rows[j].kanji == k)
}

/// Index of the first row of entry `g` with kanji flag `k`, if any.
pub open spec fn first_row(rows: Seq<Dict>, g: i32, k: bool) -> Option<int> {
    if exists|i: int| is_first_row(rows, g, k, i) {
        Some(choose|i: int| is_first_row(rows, g, k, i))
    } else {
        None
    }
}

proof fn lemma_first_row_unique(rows: Seq<Dict>, g: i32, k: bool, i: int)
    requires
        is_first_row(rows, g, k, i),
    ensures
        first_row(rows, g, k) == Some(i),
{
    let c = choose|x: int| is_first_row(rows, g, k, x);
    assert(is_first_row(rows, g, k, c));
    if c < i {
        assert(!(rows[c].sequence == g && rows[c].kanji == k));
    } else if c > i {
        assert(!(rows[i].sequence == g && rows[i].kanji == k));
    }
}

fn find_first_row(rows: &Vec<Dict>, g: i32, k: bool) -> (r: Option<usize>)
    ensures
        r matches Some(i) ==> first_row(rows@, g, k) == Some(i as int),
        r is None ==> first_row(rows@, g, k) is None,
{
    let mut i: usize = 0;
    while i < rows.len()
        invariant
            i <= rows@.len(),
            forall|j: int| 0 <= j < i ==> !(rows@[j].sequence == g && rows@[j].kanji == k),
        decreases rows@.len() - i,
    {
        if rows[i].sequence == g && rows[i].kanji == k {
            proof {
                lemma_first_row_unique(rows@, g, k, i as int);
            }
            return Some(i);
        }
        i = i + 1;
    }
    assert(!exists|x: int| is_first_row(rows@, g, k, x));
    None
}

/// Kun reading `kun` is the one a word uses, and is no longer than its kana form.
pub open spec fn kun_fits(
    literal: Seq<char>,
    kun: Seq<char>,
    kana_reading: Seq<char>,
    kanji_reading: Seq<char>,
) -> bool {
    kun_matches(literal, kun, kana_reading, kanji_reading) && unmarked(kun).len()
        <= kana_reading.len()
}

pub open spec fn some_kun_fits(
    literal: Seq<char>,
    kuns: Seq<Seq<char>>,
    kana_reading: Seq<char>,
    kanji_reading: Seq<char>,
) -> bool {
    exists|j: int| 0 <= j < kuns.len() && #[trigger] kun_fits(literal, kuns[j], kana_reading, kanji_reading)
}

/// The kanji-form row of entry `g` if the entry has both forms and some kun
/// reading fits it.
pub open spec fn group_candidate(literal: Seq<char>, kuns: Seq<Seq<char>>, rows: Seq<Dict>, g: i32) -> Option<Dict> {
    match (first_row(rows, g, true), first_row(rows, g, false)) {
        (Some(k), Some(a)) => if some_kun_fits(literal, kuns, rows[a].reading@, rows[k].reading@) {
            Some(rows[k])
        } else {
            None
        },
        _ => None,
    }
}

/// The candidate words for the kun readings `kuns`: for each entry of `ids`,
/// taken once in order, its kanji-form row if some kun reading fits it.
pub open spec fn kun_candidates(literal: Seq<char>, kuns: Seq<Seq<char>>, ids: Seq<i32>, groups: Map<i32, Seq<Dict>>) -> Seq<Dict>
    decreases ids.len(),
{
    if ids.len() == 0 {
        Seq::empty()
    } else {
        let prev = kun_candidates(literal, kuns, ids.drop_last(), groups);
        let g = ids.last();
        if ids.drop_last().contains(g) {
            prev
        } else {
            match group_candidate(literal, kuns, group_rows(groups, g), g) {
                Some(d) => prev.push(d),
                None => prev,
            }
        }
    }
}

// ---------------------------------------------------------------------------
// Ranking
// ---------------------------------------------------------------------------

/// Position of the first element of `c` equal to `r`; `c.len()` if none is.
pub open spec fn position_in(c: Seq<Seq<char>>, r: Seq<char>) -> nat
    decreases c.len(),
{
    if c.len() == 0 {
        0
    } else if c[0] == r {
        0
    } else {
        1 + position_in(c.drop_first(), r)
    }
}

/// Rank of a candidate, smaller first: its reading's position among the
/// kanji's own readings (after all of them if it is none of them), then
/// whether it has no priority marker, then whether its level is unknown, then
/// its level.
pub open spec fn rank_of(d: Dict, clean: Seq<Seq<char>>) -> (usize, u8, u8, i32) {
    (
        position_in(clean, d.reading@) as usize,
        if d.priority_count > 0 { 0u8 } else { 1u8 },
        if d.jlpt_lvl is Some { 0u8 } else { 1u8 },
        match d.jlpt_lvl { Some(l) => l, None => 0i32 },
    )
}

/// Lexicographic order on ranks.
pub open spec fn rank_le(a: (usize, u8, u8, i32), b: (usize, u8, u8, i32)) -> bool {
    a.0 < b.0 || (a.0 == b.0 && (a.1 < b.1 || (a.1 == b.1 && (a.2 < b.2 || (a.2 == b.2
        && a.3 <= b.3)))))
}

/// `x` placed into `s` after every element that ranks before it or equal to it.
pub open spec fn insert_ranked(s: Seq<((usize, u8, u8, i32), i32)>, x: ((usize, u8, u8, i32), i32)) -> Seq<((usize, u8, u8, i32), i32)>
    decreases s.len(),
{
    if s.len() == 0 {
        seq![x]
    } else if rank_le(s.last().0, x.0) {
        s.push(x)
    } else {
        insert_ranked(s.drop_last(), x).push(s.last())
    }
}

/// `s` in rank order; elements of equal rank keep their order (stable).
pub open spec fn rank_sorted(s: Seq<((usize, u8, u8, i32), i32)>) -> Seq<((usize, u8, u8, i32), i32)>
    decreases s.len(),
{
    if s.len() == 0 {
        s
    } else {
        insert_ranked(rank_sorted(s.drop_last()), s.last())
    }
}

proof fn lemma_insert_ranked(s: Seq<((usize, u8, u8, i32), i32)>, x: ((usize, u8, u8, i32), i32), j: int)
    requires
        0 <= j <= s.len(),
        j == 0 || rank_le(s[j - 1].0, x.0),
        forall|m: int| j <= m < s.len() ==> !rank_le(#[trigger] s[m].0, x.0),
    ensures
        insert_ranked(s, x) == s.insert(j, x),
    decreases s.len(),
{
    if s.len() == 0 {
        assert(s.insert(j, x) =~= seq![x]);
    } else if j == s.len() {
        assert(s.insert(j, x) =~= s.push(x));
    } else {
        let t = s.drop_last();
        assert(!rank_le(s[s.len() - 1].0, x.0));
        assert forall|m: int| j <= m < t.len() implies !rank_le(#[trigger] t[m].0, x.0) by {
            assert(t[m] == s[m]);
        }
        lemma_insert_ranked(t, x, j);
        assert(s.insert(j, x) =~= t.insert(j, x).push(s.last()));
    }
}

proof fn lemma_rank_sorted_len(s: Seq<((usize, u8, u8, i32), i32)>)
    ensures
        rank_sorted(s).len() == s.len(),
    decreases s.len(),
{
    if s.len() > 0 {
        lemma_rank_sorted_len(s.drop_last());
        lemma_insert_ranked_len(rank_sorted(s.drop_last()), s.last());
    }
}

proof fn lemma_insert_ranked_len(s: Seq<((usize, u8, u8, i32), i32)>, x: ((usize, u8, u8, i32), i32))
    ensures
        insert_ranked(s, x).len() == s.len() + 1,
    decreases s.len(),
{
    if s.len() > 0 {
        lemma_insert_ranked_len(s.drop_last(), x);
    }
}

fn rank_le_exec(a: (usize, u8, u8, i32), b: (usize, u8, u8, i32)) -> (r: bool)
    ensures
        r == rank_le(a, b),
{
    a.0 < b.0 || (a.0 == b.0 && (a.1 < b.1 || (a.1 == b.1 && (a.2 < b.2 || (a.2 == b.2 && a.3
        <= b.3)))))
}

/// Stable sort by rank (insertion sort).
pub fn sort_ranked(v: Vec<((usize, u8, u8, i32), i32)>) -> (r: Vec<((usize, u8, u8, i32), i32)>)
    ensures
        r@ == rank_sorted(v@),
{
    let mut out: Vec<((usize, u8, u8, i32), i32)> = Vec::new();
    let mut i: usize = 0;
    while i < v.len()
        invariant
            i <= v@.len(),
            out@ == rank_sorted(v@.subrange(0, i as int)),
        decreases v@.len() - i,
    {
        assert(v@.subrange(0, i + 1).drop_last() =~= v@.subrange(0, i as int));
        let x = v[i];
        let mut j: usize = out.len();
        while j > 0 && !rank_le_exec(out[j - 1].0, x.0)
            invariant
                j <= out@.len(),
                forall|m: int| j <= m < out@.len() ==> !rank_le(#[trigger] out@[m].0, x.0),
            decreases j,
        {
            j = j - 1;
        }
        proof {
            lemma_insert_ranked(out@, x, j as int);
        }
        out.insert(j, x);
        i = i + 1;
    }
    assert(v@.subrange(0, v@.len() as int) =~= v@);
    out
}

proof fn lemma_position_in(c: Seq<Seq<char>>, r: Seq<char>, i: int)
    requires
        0 <= i <= c.len(),
        forall|j: int| 0 <= j < i ==> c[j] != r,
        i == c.len() || c[i] == r,
    ensures
        position_in(c, r) == i,
    decreases c.len(),
{
    if c.len() > 0 && i > 0 {
        let t = c.drop_first();
        assert forall|j: int| 0 <= j < i - 1 implies t[j] != r by {
            assert(t[j] == c[j + 1]);
        }
        lemma_position_in(t, r, i - 1);
    }
}

fn rank_exec(d: &Dict, clean: &Vec<String>) -> (r: (usize, u8, u8, i32))
    ensures
        r == rank_of(*d, views(clean@)),
{
    let ghost c = views(clean@);
    let mut i: usize = 0;
    while i < clean.len() && clean[i] != d.reading
        invariant
            c == views(clean@),
            i <= clean@.len(),
            forall|j: int| 0 <= j < i ==> c[j] != d.reading@,
        decreases clean@.len() - i,
    {
        i = i + 1;
    }
    proof {
        lemma_position_in(c, d.reading@, i as int);
    }
    let p: u8 = if d.priority_count > 0 {
        0
    } else {
        1
    };
    let (known, lvl): (u8, i32) = match d.jlpt_lvl {
        Some(l) => (0, l),
        None => (1, 0),
    };
    (i, p, known, lvl)
}

/// `g` occurs among the first `n` elements of `v`.
fn occurs_before(v: &Vec<i32>, n: usize, g: i32) -> (r: bool)
    requires
        n <= v@.len(),
    ensures
        r == v@.subrange(0, n as int).contains(g),
{
    let mut i: usize = 0;
    while i < n
        invariant
            n <= v@.len(),
            i <= n,
            forall|j: int| 0 <= j < i ==> v@[j] != g,
        decreases n - i,
    {
        if v[i] == g {
            assert(v@.subrange(0, n as int)[i as int] == g);
            return true;
        }
        i = i + 1;
    }
    assert forall|j: int| 0 <= j < n implies v@.subrange(0, n as int)[j] != g by {
        assert(v@.subrange(0, n as int)[j] == v@[j]);
    }
    false
}

/// Whether some kun reading of `kuns` fits the word written `kanji_reading`
/// and read `kana_reading`.
fn any_kun_fits(literal: &str, kuns: &Vec<String>, kana_reading: &String, kanji_reading: &String) -> (r: bool)
    ensures
        r == some_kun_fits(literal@, views(kuns@), kana_reading@, kanji_reading@),
{
    let ghost ks = views(kuns@);
    let kana_len = kana_reading.as_str().unicode_len();
    let mut j: usize = 0;
    while j < kuns.len()
        invariant
            ks == views(kuns@),
            kana_len == kana_reading@.len(),
            j <= kuns@.len(),
            forall|m: int| 0 <= m < j ==> !#[trigger] kun_fits(literal@, ks[m], kana_reading@, kanji_reading@),
        decreases kuns@.len() - j,
    {
        let ku = kuns[j].as_str();
        if matches_kanji(literal, ku, kana_reading.as_str(), kanji_reading.as_str()) && len(ku) <= kana_len {
            assert(kun_fits(literal@, ks[j as int], kana_reading@, kanji_reading@));
            return true;
        }
        j = j + 1;
    }
    false
}

/// A candidate as the sort sees it: its rank and its entry.
pub open spec fn ranked_entry(d: Dict, clean: Seq<Seq<char>>) -> ((usize, u8, u8, i32), i32) {
    (rank_of(d, clean), d.sequence)
}

/// The kanji's own readings, reduced to the part the kanji spells.
pub open spec fn clean_readings(kuns: Seq<Seq<char>>) -> Seq<Seq<char>> {
    kuns.map_values(|k: Seq<char>| literal_part(k))
}

/// At most `max` of `c` in link order: all of them if they are at most `max`,
/// else the first `max` in rank order.
pub open spec fn capped(c: Seq<((usize, u8, u8, i32), i32)>, max: nat) -> Seq<i32> {
    let ordered = if c.len() > max {
        rank_sorted(c).take(max as int)
    } else {
        c
    };
    ordered.map_values(|e: ((usize, u8, u8, i32), i32)| e.1)
}

/// The kun links of a kanji: its candidate words, capped at ten.
pub open spec fn kun_links(literal: Seq<char>, kuns: Seq<Seq<char>>, ids: Seq<i32>, groups: Map<i32, Seq<Dict>>) -> Seq<i32> {
    let clean = clean_readings(kuns);
    capped(
        kun_candidates(literal, kuns, ids, groups).map_values(|d: Dict| ranked_entry(d, clean)),
        10,
    )
}

/// The entries that exemplify the kun readings `kun` of the kanji `literal`.
/// `seq_ids` are the entries whose kanji form starts with the literal, and
/// `cache` holds their rows (an entry it lacks has no candidate). Each entry with a kanji-form and a kana-form
/// row counts once; it is a candidate when some kun reading fits it. Of more
/// than ten candidates the ten that rank first are kept.
pub fn find_kun_readings(literal: &str, kun: &Vec<String>, seq_ids: &Vec<i32>, cache: &DictCache) -> (r: Vec<i32>)
    ensures
        r@ == kun_links(literal@, views(kun@), seq_ids@, cache.view()),
        r@.len() <= 10,
{
    let ghost ks = views(kun@);
    let ghost rows = cache.view();
    let mut clean: Vec<String> = Vec::new();
    let mut i: usize = 0;
    while i < kun.len()
        invariant
            ks == views(kun@),
            i <= kun@.len(),
            clean@.len() == i,
            views(clean@) == clean_readings(ks).subrange(0, i as int),
        decreases kun@.len() - i,
    {
        let c = literal_reading(kun[i].as_str());
        assert(ks[i as int] == kun@[i as int]@);
        assert(clean_readings(ks)[i as int] == literal_part(ks[i as int]));
        let ghost prev = clean@;
        clean.push(c);
        assert forall|j: int| 0 <= j < i implies views(clean@)[j] == views(prev)[j] by {
            assert(clean@[j] == prev[j]);
        }
        assert(views(clean@)[i as int] == c@);
        i = i + 1;
        assert(views(clean@) =~= clean_readings(ks).subrange(0, i as int));
    }
    assert(clean_readings(ks).subrange(0, kun@.len() as int) =~= clean_readings(ks));
    let ghost cl = views(clean@);
    let empty: Vec<Dict> = Vec::new();
    let mut items: Vec<((usize, u8, u8, i32), i32)> = Vec::new();
    let mut i: usize = 0;
    while i < seq_ids.len()
        invariant
            ks == views(kun@),
            rows == cache.view(),
            empty@ == Seq::<Dict>::empty(),
            cl == views(clean@),
            cl == clean_readings(ks),
            i <= seq_ids@.len(),
            items@ == kun_candidates(literal@, ks, seq_ids@.subrange(0, i as int), rows).map_values(
                |d: Dict| ranked_entry(d, cl),
            ),
        decreases seq_ids@.len() - i,
    {
        let ghost pre = seq_ids@.subrange(0, i as int);
        assert(seq_ids@.subrange(0, i + 1).drop_last() =~= pre);
        let g = seq_ids[i];
        if !occurs_before(seq_ids, i, g) {
            let group = match cache.rows_of(g) {
                Some(v) => v,
                None => &empty,
            };
            assert(group@ == group_rows(rows, g));
            let k = find_first_row(group, g, true);
            let a = find_first_row(group, g, false);
            match (k, a) {
                (Some(k), Some(a)) => {
                    if any_kun_fits(literal, kun, &group[a].reading, &group[k].reading) {
                        let d = &group[k];
                        let e = (rank_exec(d, &clean), d.sequence);
                        items.push(e);
                        assert(items@ =~= kun_candidates(literal@, ks, seq_ids@.subrange(0, i + 1), rows).map_values(
                            |d: Dict| ranked_entry(d, cl),
                        ));
                    }
                },
                _ => {},
            }
        }
        i = i + 1;
        assert(items@ =~= kun_candidates(literal@, ks, seq_ids@.subrange(0, i as int), rows).map_values(
            |d: Dict| ranked_entry(d, cl),
        ));
    }
    assert(seq_ids@.subrange(0, seq_ids@.len() as int) =~= seq_ids@);
    let ghost all = items@;
    if items.len() > 10 {
        items = sort_ranked(items);
        proof {
            lemma_rank_sorted_len(all);
        }
        items.truncate(10);
        assert(items@ =~= rank_sorted(all).take(10));
    }
    let mut r: Vec<i32> = Vec::new();
    let mut i: usize = 0;
    while i < items.len()
        invariant
            i <= items@.len(),
            r@ == items@.subrange(0, i as int).map_values(|e: ((usize, u8, u8, i32), i32)| e.1),
        decreases items@.len() - i,
    {
        r.push(items[i].1);
        i = i + 1;
        assert(r@ =~= items@.subrange(0, i as int).map_values(|e: ((usize, u8, u8, i32), i32)| e.1));
    }
    assert(items@.subrange(0, items@.len() as int) =~= items@);
    assert(r@ =~= capped(all, 10));
    r
}

pub open spec fn id_lists(found: Seq<Vec<i32>>) -> Seq<Seq<i32>> {
    found.map_values(|v: Vec<i32>| v@)
}

/// `s` with every element after its first occurrence left out.
pub open spec fn without_repeats<A>(s: Seq<A>) -> Seq<A>
    decreases s.len(),
{
    if s.len() == 0 {
        s
    } else {
        let prev = without_repeats(s.drop_last());
        if prev.contains(s.last()) {
            prev
        } else {
            prev.push(s.last())
        }
    }
}

/// The on links of a kanji, from the entries found for each of its on
/// readings: reading by reading, each entry once, capped at nine.
pub open spec fn on_links(found: Seq<Seq<i32>>) -> Seq<i32> {
    let all = without_repeats(found.flatten());
    if all.len() > 9 {
        all.take(9)
    } else {
        all
    }
}

/// The on links of a kanji: `found[i]` holds the entries that read the
/// kanji exactly with its `i`-th on reading. Each entry counts once, at its
/// first place; at most nine are kept, in order.
pub fn find_on_readings(found: &Vec<Vec<i32>>) -> (r: Vec<i32>)
    ensures
        r@ == on_links(id_lists(found@)),
        r@.len() <= 9,
{
    let ghost f = id_lists(found@);
    let mut all: Vec<i32> = Vec::new();
    let mut i: usize = 0;
    while i < found.len()
        invariant
            f == id_lists(found@),
            i <= found@.len(),
            all@ == f.subrange(0, i as int).flatten_alt(),
        decreases found@.len() - i,
    {
        assert(f.subrange(0, i + 1).drop_last() =~= f.subrange(0, i as int));
        let ghost start = all@;
        let v = &found[i];
        let mut j: usize = 0;
        while j < v.len()
            invariant
                j <= v@.len(),
                all@ == start + v@.subrange(0, j as int),
            decreases v@.len() - j,
        {
            all.push(v[j]);
            j = j + 1;
            assert(all@ =~= start + v@.subrange(0, j as int));
        }
        assert(v@.subrange(0, v@.len() as int) =~= v@);
        i = i + 1;
    }
    assert(f.subrange(0, found@.len() as int) =~= f);
    proof {
        f.lemma_flatten_and_flatten_alt_are_equivalent();
    }
    let mut uniq: Vec<i32> = Vec::new();
    let mut i: usize = 0;
    while i < all.len()
        invariant
            i <= all@.len(),
            uniq@ == without_repeats(all@.subrange(0, i as int)),
        decreases all@.len() - i,
    {
        assert(all@.subrange(0, i + 1).drop_last() =~= all@.subrange(0, i as int));
        if !contains_id(&uniq, all[i]) {
            uniq.push(all[i]);
        }
        i = i + 1;
    }
    assert(all@.subrange(0, all@.len() as int) =~= all@);
    if uniq.len() > 9 {
        uniq.truncate(9);
    }
    uniq
}

// ---------------------------------------------------------------------------
// Laws of the rebuild
// ---------------------------------------------------------------------------

/// Entry `g` has the same first kanji-form row and the same first kana-form
/// row in `a` as in `b`.
pub open spec fn same_forms(a: Seq<Dict>, b: Seq<Dict>, g: i32) -> bool {
    forall|k: bool|
        {
            &&& (first_row(a, g, k) is Some <==> first_row(b, g, k) is Some)
            &&& (#[trigger] first_row(a, g, k) is Some ==> a[first_row(a, g, k)->0] == b[first_row(
                b,
                g,
                k,
            )->0])
        }
}

proof fn lemma_candidates_same(literal: Seq<char>, kuns: Seq<Seq<char>>, ids: Seq<i32>, a: Map<i32, Seq<Dict>>, b: Map<i32, Seq<Dict>>)
    requires
        forall|g: i32| ids.contains(g) ==> same_forms(group_rows(a, g), group_rows(b, g), g),
    ensures
        kun_candidates(literal, kuns, ids, a) == kun_candidates(literal, kuns, ids, b),
    decreases ids.len(),
{
    if ids.len() > 0 {
        let t = ids.drop_last();
        assert forall|g: i32| t.contains(g) implies same_forms(group_rows(a, g), group_rows(b, g), g) by {
            let i = choose|i: int| 0 <= i < t.len() && t[i] == g;
            assert(ids[i] == g);
            assert(ids.contains(g));
        }
        lemma_candidates_same(literal, kuns, t, a, b);
        let ga = group_rows(a, ids.last());
        let gb = group_rows(b, ids.last());
        let g = ids.last();
        assert(ids[ids.len() - 1] == g);
        assert(ids.contains(g));
        assert(same_forms(ga, gb, g));
        assert(first_row(ga, g, true) is Some ==> ga[first_row(ga, g, true)->0] == gb[first_row(gb, g, true)->0]);
        assert(first_row(ga, g, false) is Some ==> ga[first_row(ga, g, false)->0] == gb[first_row(gb, g, false)->0]);
        assert(group_candidate(literal, kuns, ga, g) == group_candidate(literal, kuns, gb, g));
    }
}

/// Rebuilding is idempotent: the kun links of a kanji depend only on the
/// first kanji-form and kana-form rows of the entries it is given, not on what
/// a cache held besides them, so a rebuild over an unchanged dictionary gives
/// the same links again.
pub proof fn lemma_kun_links_stable(
    literal: Seq<char>,
    kuns: Seq<Seq<char>>,
    ids: Seq<i32>,
    a: Map<i32, Seq<Dict>>,
    b: Map<i32, Seq<Dict>>,
)
    requires
        forall|g: i32| ids.contains(g) ==> same_forms(group_rows(a, g), group_rows(b, g), g),
    ensures
        kun_links(literal, kuns, ids, a) == kun_links(literal, kuns, ids, b),
{
    lemma_candidates_same(literal, kuns, ids, a, b);
}

/// A rebuilt kanji has at most ten kun links and at most nine on links.
pub proof fn lemma_link_caps(
    literal: Seq<char>,
    kuns: Seq<Seq<char>>,
    ids: Seq<i32>,
    rows: Map<i32, Seq<Dict>>,
    found: Seq<Seq<i32>>,
)
    ensures
        kun_links(literal, kuns, ids, rows).len() <= 10,
        on_links(found).len() <= 9,
{
    let clean = clean_readings(kuns);
    let c = kun_candidates(literal, kuns, ids, rows).map_values(|d: Dict| ranked_entry(d, clean));
    lemma_rank_sorted_len(c);
}

proof fn lemma_insert_ranked_elems(s: Seq<((usize, u8, u8, i32), i32)>, x: ((usize, u8, u8, i32), i32))
    ensures
        forall|e: ((usize, u8, u8, i32), i32)| #[trigger] insert_ranked(s, x).contains(e) ==> e == x || s.contains(e),
    decreases s.len(),
{
    if s.len() > 0 {
        lemma_insert_ranked_elems(s.drop_last(), x);
        assert forall|e: ((usize, u8, u8, i32), i32)| #[trigger] insert_ranked(s, x).contains(e) implies e == x
            || s.contains(e) by {
            let r = insert_ranked(s, x);
            let i = choose|i: int| 0 <= i < r.len() && r[i] == e;
            if rank_le(s.last().0, x.0) {
                if i < s.len() {
                    assert(s[i] == e);
                }
            } else {
                let t = insert_ranked(s.drop_last(), x);
                if i < t.len() {
                    assert(t[i] == e);
                    assert(t.contains(e));
                    if e != x {
                        let j = choose|j: int| 0 <= j < s.drop_last().len() && s.drop_last()[j] == e;
                        assert(s[j] == e);
                    }
                } else {
                    assert(s[s.len() - 1] == e);
                }
            }
        }
    }
}

proof fn lemma_rank_sorted_elems(s: Seq<((usize, u8, u8, i32), i32)>)
    ensures
        forall|e: ((usize, u8, u8, i32), i32)| #[trigger] rank_sorted(s).contains(e) ==> s.contains(e),
    decreases s.len(),
{
    if s.len() > 0 {
        let t = s.drop_last();
        lemma_rank_sorted_elems(t);
        lemma_insert_ranked_elems(rank_sorted(t), s.last());
        assert forall|e: ((usize, u8, u8, i32), i32)| #[trigger] rank_sorted(s).contains(e) implies s.contains(
            e,
        ) by {
            if e == s.last() {
                assert(s[s.len() - 1] == e);
            } else {
                assert(rank_sorted(t).contains(e));
                let j = choose|j: int| 0 <= j < t.len() && t[j] == e;
                assert(s[j] == e);
            }
        }
    }
}

/// The entry `g` is one that the kanji's kun readings justify.
pub open spec fn justified(literal: Seq<char>, kuns: Seq<Seq<char>>, ids: Seq<i32>, rows: Map<i32, Seq<Dict>>, g: i32) -> bool {
    &&& ids.contains(g)
    &&& group_candidate(literal, kuns, group_rows(rows, g), g) matches Some(d) && d.sequence == g && d.kanji
}

proof fn lemma_candidates_justified(literal: Seq<char>, kuns: Seq<Seq<char>>, ids: Seq<i32>, rows: Map<i32, Seq<Dict>>)
    ensures
        forall|i: int|
            0 <= i < kun_candidates(literal, kuns, ids, rows).len() ==> justified(
                literal,
                kuns,
                ids,
                rows,
                (#[trigger] kun_candidates(literal, kuns, ids, rows)[i]).sequence,
            ),
    decreases ids.len(),
{
    if ids.len() > 0 {
        let t = ids.drop_last();
        lemma_candidates_justified(literal, kuns, t, rows);
        let c = kun_candidates(literal, kuns, ids, rows);
        let p = kun_candidates(literal, kuns, t, rows);
        let g = ids.last();
        assert forall|i: int| 0 <= i < c.len() implies justified(literal, kuns, ids, rows, (#[trigger] c[i]).sequence) by {
            if i < p.len() {
                assert(c[i] == p[i]);
                let h = p[i].sequence;
                assert(justified(literal, kuns, t, rows, h));
                let j = choose|j: int| 0 <= j < t.len() && t[j] == h;
                assert(ids[j] == h);
            } else {
                assert(ids[ids.len() - 1] == g);
                let gr = group_rows(rows, g);
                let k = first_row(gr, g, true)->0;
                assert(is_first_row(gr, g, true, choose|x: int| is_first_row(gr, g, true, x)));
                assert(c[i] == gr[k]);
            }
        }
    }
}

/// Every kun link of a kanji is one of the entries it was given, and one whose
/// kanji form and kana form some kun reading of the kanji fits.
pub proof fn lemma_kun_links_justified(literal: Seq<char>, kuns: Seq<Seq<char>>, ids: Seq<i32>, rows: Map<i32, Seq<Dict>>)
    ensures
        forall|i: int|
            0 <= i < kun_links(literal, kuns, ids, rows).len() ==> justified(
                literal,
                kuns,
                ids,
                rows,
                #[trigger] kun_links(literal, kuns, ids, rows)[i],
            ),
{
    let clean = clean_readings(kuns);
    let cands = kun_candidates(literal, kuns, ids, rows);
    let c = cands.map_values(|d: Dict| ranked_entry(d, clean));
    lemma_candidates_justified(literal, kuns, ids, rows);
    lemma_rank_sorted_len(c);
    lemma_rank_sorted_elems(c);
    let links = kun_links(literal, kuns, ids, rows);
    assert forall|i: int| 0 <= i < links.len() implies justified(literal, kuns, ids, rows, #[trigger] links[i]) by {
        if c.len() > 10 {
            let e = rank_sorted(c)[i];
            assert(rank_sorted(c).contains(e));
            assert(c.contains(e));
            let j = choose|j: int| 0 <= j < c.len() && c[j] == e;
            assert(c[j].1 == cands[j].sequence);
        } else {
            assert(c[i].1 == cands[i].sequence);
        }
    }
}

proof fn lemma_without_repeats_distinct<A>(s: Seq<A>)
    ensures
        without_repeats(s).no_duplicates(),
    decreases s.len(),
{
    if s.len() > 0 {
        lemma_without_repeats_distinct(s.drop_last());
        let prev = without_repeats(s.drop_last());
        if !prev.contains(s.last()) {
            let r = prev.push(s.last());
            assert forall|i: int, j: int| 0 <= i < r.len() && 0 <= j < r.len() && i != j implies r[i]
                != r[j] by {
                if i < prev.len() && j == prev.len() {
                    assert(prev[i] == r[i]);
                } else if j < prev.len() && i == prev.len() {
                    assert(prev[j] == r[j]);
                }
            }
        }
    }
}

/// The on links of a kanji name each entry at most once.
pub proof fn lemma_on_links_distinct(found: Seq<Seq<i32>>)
    ensures
        on_links(found).no_duplicates(),
{
    let all = without_repeats(found.flatten());
    lemma_without_repeats_distinct(found.flatten());
    if all.len() > 9 {
        let t = all.take(9);
        assert forall|i: int, j: int| 0 <= i < t.len() && 0 <= j < t.len() && i != j implies t[i]
            != t[j] by {
            assert(t[i] == all[i] && t[j] == all[j]);
        }
    }
}

proof fn lemma_insert_ranked_distinct(s: Seq<((usize, u8, u8, i32), i32)>, x: ((usize, u8, u8, i32), i32))
    requires
        s.no_duplicates(),
        !s.contains(x),
    ensures
        insert_ranked(s, x).no_duplicates(),
    decreases s.len(),
{
    if s.len() > 0 && !rank_le(s.last().0, x.0) {
        let t = s.drop_last();
        assert forall|i: int, j: int| 0 <= i < t.len() && 0 <= j < t.len() && i != j implies t[i] != t[j] by {
            assert(t[i] == s[i] && t[j] == s[j]);
        }
        assert(!t.contains(x)) by {
            if t.contains(x) {
                let k = choose|k: int| 0 <= k < t.len() && t[k] == x;
                assert(s[k] == x);
            }
        }
        lemma_insert_ranked_distinct(t, x);
        lemma_insert_ranked_elems(t, x);
        let inner = insert_ranked(t, x);
        let l = s.last();
        assert(!inner.contains(l)) by {
            if inner.contains(l) {
                assert(s[s.len() - 1] == l);
                if l != x {
                    let k = choose|k: int| 0 <= k < t.len() && t[k] == l;
                    assert(s[k] == l);
                }
            }
        }
        let r = inner.push(l);
        assert forall|i: int, j: int| 0 <= i < r.len() && 0 <= j < r.len() && i != j implies r[i] != r[j] by {
            if i < inner.len() && j == inner.len() {
                assert(r[i] == inner[i]);
            } else if j < inner.len() && i == inner.len() {
                assert(r[j] == inner[j]);
            } else if i < inner.len() && j < inner.len() {
                assert(r[i] == inner[i] && r[j] == inner[j]);
            }
        }
    } else if s.len() > 0 {
        let r = s.push(x);
        assert forall|i: int, j: int| 0 <= i < r.len() && 0 <= j < r.len() && i != j implies r[i] != r[j] by {
            if i < s.len() && j == s.len() {
                assert(r[i] == s[i]);
            } else if j < s.len() && i == s.len() {
                assert(r[j] == s[j]);
            }
        }
    }
}

proof fn lemma_rank_sorted_distinct(s: Seq<((usize, u8, u8, i32), i32)>)
    requires
        s.no_duplicates(),
    ensures
        rank_sorted(s).no_duplicates(),
    decreases s.len(),
{
    if s.len() > 0 {
        let t = s.drop_last();
        assert forall|i: int, j: int| 0 <= i < t.len() && 0 <= j < t.len() && i != j implies t[i] != t[j] by {
            assert(t[i] == s[i] && t[j] == s[j]);
        }
        lemma_rank_sorted_distinct(t);
        lemma_rank_sorted_elems(t);
        assert(!rank_sorted(t).contains(s.last())) by {
            if rank_sorted(t).contains(s.last()) {
                assert(t.contains(s.last()));
                let k = choose|k: int| 0 <= k < t.len() && t[k] == s.last();
                assert(s[k] == s[s.len() - 1]);
            }
        }
        lemma_insert_ranked_distinct(rank_sorted(t), s.last());
    }
}

proof fn lemma_candidates_distinct(literal: Seq<char>, kuns: Seq<Seq<char>>, ids: Seq<i32>, rows: Map<i32, Seq<Dict>>)
    ensures
        forall|i: int, j: int|
            0 <= i < j < kun_candidates(literal, kuns, ids, rows).len() ==> (#[trigger] kun_candidates(literal, kuns, ids, rows)[i]).sequence
                != (#[trigger] kun_candidates(literal, kuns, ids, rows)[j]).sequence,
    decreases ids.len(),
{
    if ids.len() > 0 {
        let t = ids.drop_last();
        lemma_candidates_distinct(literal, kuns, t, rows);
        lemma_candidates_justified(literal, kuns, t, rows);
        lemma_candidates_justified(literal, kuns, ids, rows);
        let c = kun_candidates(literal, kuns, ids, rows);
        let p = kun_candidates(literal, kuns, t, rows);
        assert forall|i: int, j: int| 0 <= i < j < c.len() implies (#[trigger] c[i]).sequence != (#[trigger] c[j]).sequence by {
            assert(c[i] == p[i]);
            if j < p.len() {
                assert(c[j] == p[j]);
            } else {
                let g = ids.last();
                assert(justified(literal, kuns, t, rows, p[i].sequence));
                assert(justified(literal, kuns, ids, rows, c[j].sequence));
                assert(!t.contains(g));
                let gr = group_rows(rows, g);
                let k = first_row(gr, g, true)->0;
                assert(is_first_row(gr, g, true, choose|x: int| is_first_row(gr, g, true, x)));
                assert(c[j] == gr[k]);
                assert(c[j].sequence == g);
            }
        }
    }
}

/// The kun links of a kanji name each entry at most once.
pub proof fn lemma_kun_links_distinct(literal: Seq<char>, kuns: Seq<Seq<char>>, ids: Seq<i32>, rows: Map<i32, Seq<Dict>>)
    ensures
        kun_links(literal, kuns, ids, rows).no_duplicates(),
{
    let clean = clean_readings(kuns);
    let cands = kun_candidates(literal, kuns, ids, rows);
    let c = cands.map_values(|d: Dict| ranked_entry(d, clean));
    lemma_candidates_distinct(literal, kuns, ids, rows);
    assert forall|i: int, j: int| 0 <= i < c.len() && 0 <= j < c.len() && i != j implies c[i].1 != c[j].1 by {
        if i < j {
            assert(cands[i].sequence != cands[j].sequence);
        } else {
            assert(cands[j].sequence != cands[i].sequence);
        }
    }
    let links = kun_links(literal, kuns, ids, rows);
    if c.len() > 10 {
        lemma_rank_sorted_distinct(c);
        lemma_rank_sorted_len(c);
        lemma_rank_sorted_elems(c);
        let r = rank_sorted(c);
        assert forall|i: int, j: int| 0 <= i < links.len() && 0 <= j < links.len() && i != j implies links[i] != links[j] by {
            assert(links[i] == r[i].1 && links[j] == r[j].1);
            assert(r.contains(r[i]) && r.contains(r[j]));
            let a = choose|a: int| 0 <= a < c.len() && c[a] == r[i];
            let b = choose|b: int| 0 <= b < c.len() && c[b] == r[j];
            assert(r[i] != r[j]);
        }
    } else {
        assert forall|i: int, j: int| 0 <= i < links.len() && 0 <= j < links.len() && i != j implies links[i] != links[j] by {
            assert(links[i] == c[i].1 && links[j] == c[j].1);
        }
    }
}

} // verus!

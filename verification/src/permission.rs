use vstd::prelude::*;
use crate::errors::AppError;
use crate::utf8len::byte_len;
use crate::text::{concat, decimal, push_decimal, str_eq, str_byte_len, char_is_whitespace, has_prefix_at, is_whitespace, lemma_trim_start_at, push_char, str_starts_with, string_from_chars, to_chars, trim_start_ws};

verus! {

/// The tool-description prefixes (emitted by the document tools) that carry a path.
pub open spec fn known_prefix(k: int) -> Seq<char> {
    if k == 0 {
        "Wants to write file at "@
    } else if k == 1 {
        "Wants to read file at "@
    } else if k == 2 {
        "Wants to list directory "@
    } else if k == 3 {
        "Wants to search files in "@
    } else {
        "Wants to grep files in "@
    }
}

/// The number of known description prefixes.
pub open spec fn num_known_prefixes() -> int {
    5
}

fn known_prefix_str(k: usize) -> (s: &'static str)
    requires
        k < 5,
    ensures
        s@ == known_prefix(k as int),
{
    if k == 0 {
        "Wants to write file at "
    } else if k == 1 {
        "Wants to read file at "
    } else if k == 2 {
        "Wants to list directory "
    } else if k == 3 {
        "Wants to search files in "
    } else {
        "Wants to grep files in "
    }
}

/// Removes trailing `[`, `]` and space characters (`trim_end_matches(['[', ']', ' '])`).
pub open spec fn trim_end_brackets(s: Seq<char>) -> Seq<char>
    decreases s.len(),
{
    if s.len() > 0 && (s.last() == '[' || s.last() == ']' || s.last() == ' ') {
        trim_end_brackets(s.drop_last())
    } else {
        s
    }
}

/// The path candidate that follows a matched prefix.
pub open spec fn path_after_prefix(rest: Seq<char>) -> Seq<char> {
    trim_end_brackets(trim_start_ws(rest))
}

/// Tries the known prefixes from index `k` on, in order; the first prefix that
/// matches and leaves a non-empty path gives the path.
pub open spec fn extract_from(d: Seq<char>, k: int) -> Option<Seq<char>>
    decreases num_known_prefixes() - k,
{
    if k < 0 || k >= num_known_prefixes() {
        None
    } else if known_prefix(k).is_prefix_of(d)
        && path_after_prefix(d.skip(known_prefix(k).len() as int)).len() > 0 {
        Some(path_after_prefix(d.skip(known_prefix(k).len() as int)))
    } else {
        extract_from(d, k + 1)
    }
}

/// The path named by a tool description, if it starts with a known prefix.
pub open spec fn extracted_path(d: Seq<char>) -> Option<Seq<char>> {
    extract_from(d, 0)
}

/// Whether the description names a directory (list, search or grep) rather than a file.
pub open spec fn is_dir_context(d: Seq<char>) -> bool {
    known_prefix(2).is_prefix_of(d) || known_prefix(3).is_prefix_of(d)
        || known_prefix(4).is_prefix_of(d)
}

/// Index of the last `/` in `p`, or -1.
pub open spec fn last_slash(p: Seq<char>) -> int
    decreases p.len(),
{
    if p.len() == 0 {
        -1
    } else if p.last() == '/' {
        p.len() - 1
    } else {
        last_slash(p.drop_last())
    }
}

/// The directory scope a persistent decision for description `d` applies to.
pub open spec fn derived_scope(d: Seq<char>) -> Option<Seq<char>> {
    match extracted_path(d) {
        None => None,
        Some(p) => if is_dir_context(d) {
            Some(p)
        } else if last_slash(p) > 0 {
            Some(p.take(last_slash(p)))
        } else {
            Some("/"@)
        },
    }
}

/// A path made to end with `/`, for prefix comparison.
pub open spec fn normalized(p: Seq<char>) -> Seq<char> {
    if p.len() > 0 && p.last() == '/' {
        p
    } else {
        p.push('/')
    }
}

/// View of an optional string slice.
pub open spec fn opt_str_view(o: Option<&str>) -> Option<Seq<char>> {
    match o {
        Some(s) => Some(s@),
        None => None,
    }
}

/// View of an optional string.
pub open spec fn opt_view(o: Option<String>) -> Option<Seq<char>> {
    match o {
        Some(s) => Some(s@),
        None => None,
    }
}

proof fn lemma_trim_end_brackets_at(s: Seq<char>, j: int)
    requires
        0 <= j <= s.len(),
        forall|k: int| j <= k < s.len() ==> (#[trigger] s[k] == '[' || s[k] == ']' || s[k] == ' '),
        j == 0 || !(s[j - 1] == '[' || s[j - 1] == ']' || s[j - 1] == ' '),
    ensures
        trim_end_brackets(s) == s.take(j),
    decreases s.len() - j,
{
    if j == s.len() {
        assert(s.take(j) =~= s);
    } else {
        let t = s.drop_last();
        assert forall|k: int| j <= k < t.len() implies (#[trigger] t[k] == '[' || t[k] == ']' || t[k]
            == ' ') by {
            assert(t[k] == s[k]);
        }
        lemma_trim_end_brackets_at(t, j);
        assert(t.take(j) =~= s.take(j));
    }
}

/// Bounds `[i, j)` of the path candidate in `v[from..]`.
fn path_bounds(v: &Vec<char>, from: usize) -> (r: (usize, usize))
    requires
        from <= v@.len(),
    ensures
        from <= r.0 <= r.1 <= v@.len(),
        path_after_prefix(v@.skip(from as int)) == v@.subrange(r.0 as int, r.1 as int),
{
    let n = v.len();
    let mut i = from;
    while i < n && char_is_whitespace(v[i])
        invariant
            from <= i <= n == v@.len(),
            forall|k: int| from <= k < i ==> is_whitespace(#[trigger] v@[k]),
        decreases n - i,
    {
        i += 1;
    }
    let ghost s = v@.skip(from as int);
    proof {
        assert forall|k: int| 0 <= k < i - from implies is_whitespace(#[trigger] s[k]) by {
            assert(s[k] == v@[k + from]);
        }
        lemma_trim_start_at(s, i - from);
        assert(s.skip(i - from) =~= v@.subrange(i as int, n as int));
    }
    let mut j = n;
    while j > i && (v[j - 1] == '[' || v[j - 1] == ']' || v[j - 1] == ' ')
        invariant
            from <= i <= j <= n == v@.len(),
            forall|k: int| j <= k < n ==> (#[trigger] v@[k] == '[' || v@[k] == ']' || v@[k] == ' '),
        decreases j,
    {
        j -= 1;
    }
    proof {
        let t = v@.subrange(i as int, n as int);
        assert forall|k: int| j - i <= k < t.len() implies (#[trigger] t[k] == '[' || t[k] == ']'
            || t[k] == ' ') by {
            assert(t[k] == v@[k + i]);
        }
        lemma_trim_end_brackets_at(t, j - i);
        assert(t.take(j - i) =~= v@.subrange(i as int, j as int));
    }
    (i, j)
}

/// Extracts the file path from a tool description that starts with a known prefix.
/// Returns `None` when no prefix matches or nothing but brackets and spaces follow it.
pub fn extract_path_from_description(description: &str) -> (r: Option<String>)
    ensures
        opt_view(r) == extracted_path(description@),
{
    let d = to_chars(description);
    let mut k: usize = 0;
    while k < 5
        invariant
            d@ == description@,
            k <= 5,
            extracted_path(d@) == extract_from(d@, k as int),
        decreases 5 - k,
    {
        let prefix = to_chars(known_prefix_str(k));
        assert(d@.skip(0) =~= d@);
        if has_prefix_at(&d, 0, &prefix) {
            let (i, j) = path_bounds(&d, prefix.len());
            if i < j {
                return Some(string_from_chars(&d, i, j));
            }
        }
        k += 1;
    }
    None
}

/// Derives the directory scope for a persistent permission decision from a tool
/// description: the path itself for directory tools, the parent directory for
/// file tools (falling back to `/`), or `None` when no path can be extracted.
pub fn derive_scope_from_description(description: &str) -> (r: Option<String>)
    ensures
        opt_view(r) == derived_scope(description@),
{
    let path = match extract_path_from_description(description) {
        Some(p) => p,
        None => return None,
    };
    let is_dir = str_starts_with(description, known_prefix_str(2)) || str_starts_with(
        description,
        known_prefix_str(3),
    ) || str_starts_with(description, known_prefix_str(4));
    if is_dir {
        return Some(path);
    }
    let p = to_chars(path.as_str());
    let mut pos = p.len();
    assert(p@.take(pos as int) =~= p@);
    while pos > 0 && p[pos - 1] != '/'
        invariant
            pos <= p@.len(),
            last_slash(p@) == last_slash(p@.take(pos as int)),
        decreases pos,
    {
        proof {
            let t = p@.take(pos as int);
            assert(t.drop_last() =~= p@.take(pos - 1));
        }
        pos -= 1;
    }
    proof {
        if pos > 0 {
            assert(p@.take(pos as int).last() == p@[pos - 1]);
        } else {
            assert(p@.take(0).len() == 0);
        }
    }
    if pos > 1 {
        Some(string_from_chars(&p, 0, pos - 1))
    } else {
        Some(String::from_str("/"))
    }
}

/// Makes a path end with `/` so that prefix tests respect path boundaries.
pub fn normalize_for_prefix(p: &str) -> (r: String)
    ensures
        r@ == normalized(p@),
{
    let v = to_chars(p);
    if v.len() > 0 && v[v.len() - 1] == '/' {
        String::from_str(p)
    } else {
        let mut s = String::from_str(p);
        push_char(&mut s, '/');
        s
    }
}

} // verus!

verus! {

/// View of a preference entry: its optional path pattern and its decision.
pub type EntryView = (Option<Seq<char>>, Seq<char>);

/// One persisted permission preference of a tool, as held in the in-memory cache.
#[derive(Debug, Clone)]
pub struct PrefEntry {
    pub path_pattern: Option<String>,
    pub decision: String,
}

impl View for PrefEntry {
    type V = EntryView;

    open spec fn view(&self) -> EntryView {
        (opt_view(self.path_pattern), self.decision@)
    }
}

/// Views of a list of entries.
pub open spec fn entries_view(es: Seq<PrefEntry>) -> Seq<EntryView> {
    es.map_values(|e: PrefEntry| e@)
}

/// Whether an entry's path pattern covers path `p` (both compared with a trailing `/`).
pub open spec fn covers(e: EntryView, p: Seq<char>) -> bool {
    match e.0 {
        Some(q) => normalized(q).is_prefix_of(normalized(p)),
        None => false,
    }
}

/// Byte length of an entry's pattern (0 for a global entry).
pub open spec fn pattern_len(e: EntryView) -> nat {
    match e.0 {
        Some(q) => byte_len(q),
        None => 0,
    }
}

/// `i` is the first of the longest patterns that cover `p`.
pub open spec fn is_best_cover(es: Seq<EntryView>, p: Seq<char>, i: int) -> bool {
    &&& 0 <= i < es.len()
    &&& covers(es[i], p)
    &&& forall|j: int| 0 <= j < es.len() && covers(es[j], p) ==> pattern_len(es[j]) <= pattern_len(es[i])
    &&& forall|j: int| 0 <= j < i && covers(es[j], p) ==> pattern_len(es[j]) < pattern_len(es[i])
}

/// Some entry covers `p`.
pub open spec fn any_cover(es: Seq<EntryView>, p: Seq<char>) -> bool {
    exists|j: int| 0 <= j < es.len() && covers(es[j], p)
}

/// `i` is the first global (pattern-less) entry.
pub open spec fn is_first_global(es: Seq<EntryView>, i: int) -> bool {
    &&& 0 <= i < es.len()
    &&& es[i].0 is None
    &&& forall|j: int| 0 <= j < i ==> es[j].0 is Some
}

/// The entry that decides for an (optional) extracted path: the longest
/// covering path-specific rule, else the first global rule, else none.
pub open spec fn best_match(es: Seq<EntryView>, p: Option<Seq<char>>) -> Option<int> {
    if p is Some && any_cover(es, p->0) {
        Some(choose|i: int| is_best_cover(es, p->0, i))
    } else if exists|i: int| is_first_global(es, i) {
        Some(choose|i: int| is_first_global(es, i))
    } else {
        None
    }
}

/// At most one index is the best cover.
pub proof fn lemma_best_cover_unique(es: Seq<EntryView>, p: Seq<char>, i: int, k: int)
    requires
        is_best_cover(es, p, i),
        is_best_cover(es, p, k),
    ensures
        i == k,
{
    if i < k {
        assert(pattern_len(es[i]) < pattern_len(es[k]));
    } else if k < i {
        assert(pattern_len(es[k]) < pattern_len(es[i]));
    }
}

/// At most one index is the first global entry.
pub proof fn lemma_first_global_unique(es: Seq<EntryView>, i: int, k: int)
    requires
        is_first_global(es, i),
        is_first_global(es, k),
    ensures
        i == k,
{
    if i < k {
        assert(es[i].0 is Some);
    } else if k < i {
        assert(es[k].0 is Some);
    }
}

/// Picks the preference entry that decides for the given extracted path:
/// the longest matching path-specific rule (the first of equally long ones),
/// else the first global rule, else none. Returns the entry's index.
pub fn pick_best_match(entries: &Vec<PrefEntry>, extracted_path: Option<&str>) -> (r: Option<usize>)
    ensures
        r matches Some(i) ==> i < entries@.len(),
        match r {
            Some(i) => best_match(entries_view(entries@), opt_str_view(extracted_path))
                == Some(i as int),
            None => best_match(entries_view(entries@), opt_str_view(extracted_path)) is None,
        },
{
    let ghost es = entries_view(entries@);
    if let Some(path) = extracted_path {
        let normalized_path = normalize_for_prefix(path);
        let mut best: Option<usize> = None;
        let mut best_len: usize = 0;
        let mut j: usize = 0;
        while j < entries.len()
            invariant
                es == entries_view(entries@),
                normalized_path@ == normalized(path@),
                j <= entries@.len(),
                match best {
                    Some(b) => {
                        &&& b < j
                        &&& covers(es[b as int], path@)
                        &&& best_len == pattern_len(es[b as int])
                        &&& forall|k: int| 0 <= k < j && covers(es[k], path@) ==> pattern_len(es[k])
                            <= pattern_len(es[b as int])
                        &&& forall|k: int| 0 <= k < b && covers(es[k], path@) ==> pattern_len(es[k])
                            < pattern_len(es[b as int])
                    },
                    None => forall|k: int| 0 <= k < j ==> !covers(#[trigger] es[k], path@),
                },
            decreases entries@.len() - j,
        {
            assert(es[j as int] == entries@[j as int]@);
            if let Some(pattern) = &entries[j].path_pattern {
                let normalized_pattern = normalize_for_prefix(pattern.as_str());
                if str_starts_with(normalized_path.as_str(), normalized_pattern.as_str()) {
                    let len = str_byte_len(pattern.as_str());
                    assert(len == pattern_len(es[j as int]));
                    match best {
                        Some(b) if best_len >= len => {},
                        _ => {
                            best = Some(j);
                            best_len = len;
                        },
                    }
                }
            }
            j += 1;
        }
        if let Some(b) = best {
            proof {
                assert(is_best_cover(es, path@, b as int));
                assert(any_cover(es, path@));
                let c = choose|i: int| is_best_cover(es, path@, i);
                lemma_best_cover_unique(es, path@, b as int, c);
            }
            return Some(b);
        }
        assert(!any_cover(es, path@));
        return first_global(entries);
    }
    first_global(entries)
}

/// Index of the first global (pattern-less) entry.
fn first_global(entries: &Vec<PrefEntry>) -> (r: Option<usize>)
    ensures
        match r {
            Some(i) => i < entries@.len() && is_first_global(entries_view(entries@), i as int)
                && (exists|k: int| is_first_global(entries_view(entries@), k))
                && (choose|k: int| is_first_global(entries_view(entries@), k)) == i as int,
            None => !exists|k: int| is_first_global(entries_view(entries@), k),
        },
{
    let ghost es = entries_view(entries@);
    let mut j: usize = 0;
    while j < entries.len()
        invariant
            es == entries_view(entries@),
            j <= entries@.len(),
            forall|k: int| 0 <= k < j ==> (#[trigger] es[k]).0 is Some,
        decreases entries@.len() - j,
    {
        assert(es[j as int] == entries@[j as int]@);
        if entries[j].path_pattern.is_none() {
            proof {
                assert(is_first_global(es, j as int));
                let c = choose|i: int| is_first_global(es, i);
                lemma_first_global_unique(es, j as int, c);
            }
            return Some(j);
        }
        j += 1;
    }
    proof {
        assert forall|i: int| !is_first_global(es, i) by {
            if is_first_global(es, i) {
                assert(es[i].0 is None);
            }
        }
    }
    None
}

} // verus!

verus! {

/// View of the preference cache: tool names with their entries, in insertion order.
pub type CacheView = Seq<(Seq<char>, Seq<EntryView>)>;

/// `i` is the first position of tool `t` in the cache.
pub open spec fn is_first_tool(c: CacheView, t: Seq<char>, i: int) -> bool {
    &&& 0 <= i < c.len()
    &&& c[i].0 == t
    &&& forall|j: int| 0 <= j < i ==> c[j].0 != t
}

/// Position of tool `t` in the cache, or -1.
pub open spec fn tool_index(c: CacheView, t: Seq<char>) -> int {
    if exists|i: int| is_first_tool(c, t, i) {
        choose|i: int| is_first_tool(c, t, i)
    } else {
        -1
    }
}

/// The entries cached for tool `t`.
pub open spec fn lookup(c: CacheView, t: Seq<char>) -> Option<Seq<EntryView>> {
    if tool_index(c, t) >= 0 {
        Some(c[tool_index(c, t)].1)
    } else {
        None
    }
}

/// `k` is the first entry whose pattern is `pat`.
pub open spec fn is_first_pattern(es: Seq<EntryView>, pat: Option<Seq<char>>, k: int) -> bool {
    &&& 0 <= k < es.len()
    &&& es[k].0 == pat
    &&& forall|j: int| 0 <= j < k ==> es[j].0 != pat
}

/// Position of the first entry with pattern `pat`, or -1.
pub open spec fn pattern_index(es: Seq<EntryView>, pat: Option<Seq<char>>) -> int {
    if exists|k: int| is_first_pattern(es, pat, k) {
        choose|k: int| is_first_pattern(es, pat, k)
    } else {
        -1
    }
}

/// Records decision `dec` for path pattern `s`: overwrites the first entry with
/// that pattern, or appends a new entry.
pub open spec fn upsert_entries(es: Seq<EntryView>, s: Seq<char>, dec: Seq<char>) -> Seq<EntryView> {
    if pattern_index(es, Some(s)) >= 0 {
        es.update(pattern_index(es, Some(s)), (Some(s), dec))
    } else {
        es.push((Some(s), dec))
    }
}

/// The cache after recording decision `dec` for tool `t` and pattern `s`.
pub open spec fn cache_upsert(c: CacheView, t: Seq<char>, s: Seq<char>, dec: Seq<char>) -> CacheView {
    if tool_index(c, t) >= 0 {
        c.update(tool_index(c, t), (t, upsert_entries(c[tool_index(c, t)].1, s, dec)))
    } else {
        c.push((t, seq![(Some(s), dec)]))
    }
}

/// The cache after appending entry `e` to tool `t`'s list.
pub open spec fn cache_append(c: CacheView, t: Seq<char>, e: EntryView) -> CacheView {
    if tool_index(c, t) >= 0 {
        c.update(tool_index(c, t), (t, c[tool_index(c, t)].1.push(e)))
    } else {
        c.push((t, seq![e]))
    }
}

/// Tool names occur at most once.
pub open spec fn distinct_tools(c: CacheView) -> bool {
    forall|i: int, j: int| 0 <= i < j < c.len() ==> c[i].0 != c[j].0
}

proof fn lemma_first_tool_unique(c: CacheView, t: Seq<char>, i: int, k: int)
    requires
        is_first_tool(c, t, i),
        is_first_tool(c, t, k),
    ensures
        i == k,
{
    if i < k {
        assert(c[i].0 != t);
    } else if k < i {
        assert(c[k].0 != t);
    }
}

proof fn lemma_first_pattern_unique(es: Seq<EntryView>, pat: Option<Seq<char>>, i: int, k: int)
    requires
        is_first_pattern(es, pat, i),
        is_first_pattern(es, pat, k),
    ensures
        i == k,
{
    if i < k {
        assert(es[i].0 != pat);
    } else if k < i {
        assert(es[k].0 != pat);
    }
}

/// In-memory cache of persisted permission preferences, keyed by tool name.
pub struct PrefCache {
    tools: Vec<String>,
    lists: Vec<Vec<PrefEntry>>,
}

impl View for PrefCache {
    type V = CacheView;

    closed spec fn view(&self) -> CacheView {
        Seq::new(
            self.tools@.len(),
            |i: int| (self.tools@[i]@, entries_view(self.lists@[i]@)),
        )
    }
}

impl PrefCache {
    /// Well-formedness: one entry list per tool, each tool at most once.
    pub closed spec fn wf(&self) -> bool {
        &&& self.tools@.len() == self.lists@.len()
        &&& distinct_tools(self@)
    }

    /// An empty cache.
    pub fn new() -> (c: PrefCache)
        ensures
            c.wf(),
            c@ == Seq::<(Seq<char>, Seq<EntryView>)>::empty(),
    {
        let c = PrefCache { tools: Vec::new(), lists: Vec::new() };
        assert(c@ =~= Seq::<(Seq<char>, Seq<EntryView>)>::empty());
        c
    }

    /// Number of tools with cached entries.
    pub fn len(&self) -> (n: usize)
        requires
            self.wf(),
        ensures
            n == self@.len(),
    {
        self.tools.len()
    }

    fn find_tool(&self, tool: &str) -> (r: Option<usize>)
        requires
            self.wf(),
        ensures
            match r {
                Some(i) => tool_index(self@, tool@) == i as int && i < self.tools@.len(),
                None => tool_index(self@, tool@) == -1,
            },
    {
        let mut i: usize = 0;
        while i < self.tools.len()
            invariant
                self.wf(),
                i <= self.tools@.len(),
                forall|j: int| 0 <= j < i ==> (#[trigger] self@[j]).0 != tool@,
            decreases self.tools@.len() - i,
        {
            assert(self@[i as int].0 == self.tools@[i as int]@);
            if str_eq(self.tools[i].as_str(), tool) {
                proof {
                    assert(is_first_tool(self@, tool@, i as int));
                    let k = choose|k: int| is_first_tool(self@, tool@, k);
                    lemma_first_tool_unique(self@, tool@, i as int, k);
                }
                return Some(i);
            }
            i += 1;
        }
        proof {
            assert forall|k: int| !is_first_tool(self@, tool@, k) by {
                if is_first_tool(self@, tool@, k) {
                    assert(self@[k].0 != tool@);
                }
            }
        }
        None
    }

    /// The entries cached for `tool`.
    pub fn get(&self, tool: &str) -> (r: Option<&Vec<PrefEntry>>)
        requires
            self.wf(),
        ensures
            match r {
                Some(es) => lookup(self@, tool@) == Some(entries_view(es@)),
                None => lookup(self@, tool@) is None,
            },
    {
        match self.find_tool(tool) {
            Some(i) => Some(&self.lists[i]),
            None => None,
        }
    }

    /// Whether any entry is cached for `tool`.
    pub fn contains_key(&self, tool: &str) -> (r: bool)
        requires
            self.wf(),
        ensures
            r == (lookup(self@, tool@) is Some),
    {
        self.find_tool(tool).is_some()
    }

    proof fn lemma_push_new_tool(&self, t: Seq<char>, es: Seq<EntryView>, old_view: CacheView)
        requires
            old_view == self@,
            distinct_tools(old_view),
            tool_index(old_view, t) == -1,
        ensures
            distinct_tools(old_view.push((t, es))),
    {
        assert forall|i: int, j: int| 0 <= i < j < old_view.len() + 1 implies old_view.push(
            (t, es),
        )[i].0 != old_view.push((t, es))[j].0 by {
            if j == old_view.len() && old_view[i].0 == t {
                let f = first_index_of(old_view, t, i);
                assert(is_first_tool(old_view, t, f));
            }
        }
    }

    /// Records decision `decision` for `tool` and path pattern `pattern`,
    /// overwriting an entry with the same pattern or appending one.
    pub fn upsert(&mut self, tool: &str, pattern: &str, decision: &str)
        requires
            old(self).wf(),
        ensures
            final(self).wf(),
            final(self)@ == cache_upsert(old(self)@, tool@, pattern@, decision@),
    {
        let ghost c0 = self@;
        match self.find_tool(tool) {
            Some(i) => {
                upsert_entry(&mut self.lists[i], pattern, decision);
                assert(self@ =~= cache_upsert(c0, tool@, pattern@, decision@));
            },
            None => {
                let mut es: Vec<PrefEntry> = Vec::new();
                es.push(
                    PrefEntry {
                        path_pattern: Some(String::from_str(pattern)),
                        decision: String::from_str(decision),
                    },
                );
                proof {
                    self.lemma_push_new_tool(tool@, entries_view(es@), c0);
                }
                self.tools.push(String::from_str(tool));
                self.lists.push(es);
                assert(entries_view(es@) =~= seq![(Some(pattern@), decision@)]);
                assert(self@ =~= cache_upsert(c0, tool@, pattern@, decision@));
            },
        }
    }

    /// Appends entry `e` to `tool`'s list, creating the list when needed.
    pub fn append(&mut self, tool: &str, e: PrefEntry)
        requires
            old(self).wf(),
        ensures
            final(self).wf(),
            final(self)@ == cache_append(old(self)@, tool@, e@),
    {
        let ghost c0 = self@;
        let ghost ev = e@;
        match self.find_tool(tool) {
            Some(i) => {
                self.lists[i].push(e);
                assert(entries_view(self.lists@[i as int]@) =~= c0[i as int].1.push(ev));
                assert(self@ =~= cache_append(c0, tool@, ev));
            },
            None => {
                let mut es: Vec<PrefEntry> = Vec::new();
                es.push(e);
                proof {
                    self.lemma_push_new_tool(tool@, entries_view(es@), c0);
                }
                self.tools.push(String::from_str(tool));
                self.lists.push(es);
                assert(entries_view(es@) =~= seq![ev]);
                assert(self@ =~= cache_append(c0, tool@, ev));
            },
        }
    }
}

/// First position of `t` at or before `i`, given that `c[i]` is `t`.
proof fn first_index_of(c: CacheView, t: Seq<char>, i: int) -> (f: int)
    requires
        0 <= i < c.len(),
        c[i].0 == t,
    ensures
        is_first_tool(c, t, f),
    decreases i,
{
    if exists|j: int| 0 <= j < i && c[j].0 == t {
        let j = choose|j: int| 0 <= j < i && c[j].0 == t;
        first_index_of(c, t, j)
    } else {
        i
    }
}

/// Records decision `decision` for pattern `pattern` in a tool's entry list.
fn upsert_entry(es: &mut Vec<PrefEntry>, pattern: &str, decision: &str)
    ensures
        entries_view(final(es)@) == upsert_entries(entries_view(old(es)@), pattern@, decision@),
{
    let ghost v0 = entries_view(es@);
    let mut j: usize = 0;
    while j < es.len()
        invariant
            v0 == entries_view(es@),
            es@ == old(es)@,
            j <= es@.len(),
            forall|k: int| 0 <= k < j ==> (#[trigger] v0[k]).0 != Some(pattern@),
        decreases es@.len() - j,
    {
        assert(v0[j as int] == es@[j as int]@);
        let same = match &es[j].path_pattern {
            Some(p) => str_eq(p.as_str(), pattern),
            None => false,
        };
        if same {
            proof {
                assert(is_first_pattern(v0, Some(pattern@), j as int));
                let k = choose|k: int| is_first_pattern(v0, Some(pattern@), k);
                lemma_first_pattern_unique(v0, Some(pattern@), j as int, k);
            }
            es.set(
                j,
                PrefEntry {
                    path_pattern: Some(String::from_str(pattern)),
                    decision: String::from_str(decision),
                },
            );
            assert(entries_view(es@) =~= upsert_entries(v0, pattern@, decision@));
            return ;
        }
        j += 1;
    }
    proof {
        assert forall|k: int| !is_first_pattern(v0, Some(pattern@), k) by {
            if is_first_pattern(v0, Some(pattern@), k) {
                assert(v0[k].0 != Some(pattern@));
            }
        }
    }
    es.push(
        PrefEntry { path_pattern: Some(String::from_str(pattern)), decision: String::from_str(decision) },
    );
    assert(entries_view(es@) =~= upsert_entries(v0, pattern@, decision@));
}

} // verus!

verus! {

/// How long the permission gate waits for the user's reply, in seconds.
pub const DEFAULT_TIMEOUT_SECS: u64 = 60;

/// Abstract outcome of a permission check.
pub enum Verdict {
    Allow,
    Deny(Seq<char>),
}

/// The answer of the permission gate to a tool invocation.
#[derive(Debug)]
pub enum PermissionResult {
    Allow,
    Deny { reason: String },
}

impl View for PermissionResult {
    type V = Verdict;

    open spec fn view(&self) -> Verdict {
        match self {
            PermissionResult::Allow => Verdict::Allow,
            PermissionResult::Deny { reason } => Verdict::Deny(reason@),
        }
    }
}

/// The user's answer to a permission prompt.
#[derive(Debug)]
pub enum PermissionResponse {
    Allow,
    Deny { reason: String },
    AllowAlways { path: Option<String> },
    DenyAlways { path: Option<String> },
}

/// What the wait for the user's answer produced.
#[derive(Debug)]
pub enum ResponseOutcome {
    /// The user answered before the timeout.
    Answered(PermissionResponse),
    /// The answer channel was dropped without an answer.
    ChannelClosed,
    /// No answer arrived before the timeout.
    TimedOut,
}

/// A persistent decision to store in the preference database.
#[derive(Debug)]
pub struct PersistRequest {
    pub tool_name: String,
    pub path_pattern: String,
    pub decision: String,
}

/// View of a persistence request: tool, pattern, decision.
pub open spec fn persist_view(p: Option<PersistRequest>) -> Option<(Seq<char>, Seq<char>, Seq<char>)> {
    match p {
        Some(r) => Some((r.tool_name@, r.path_pattern@, r.decision@)),
        None => None,
    }
}

/// Reason given when a stored preference denies a tool.
pub open spec fn denied_by_preference(t: Seq<char>) -> Seq<char> {
    "Tool '"@ + t + "' is denied by user preference"@
}

/// Reason given when the user answers "deny always".
pub open spec fn permanently_denied(t: Seq<char>) -> Seq<char> {
    "Tool '"@ + t + "' is permanently denied by user"@
}

/// Reason given when the answer channel closes.
pub open spec fn channel_cancelled() -> Seq<char> {
    "Permission request channel was cancelled"@
}

/// Reason given when no answer arrives in time.
pub open spec fn timed_out(secs: nat) -> Seq<char> {
    "Permission request timed out after "@ + decimal(secs) + "s"@
}

/// Reason given when the prompt cannot be shown.
pub open spec fn emit_failed() -> Seq<char> {
    "Failed to emit permission request to frontend"@
}

/// What the permission gate decides without asking the user, if anything: paths inside the
/// sandbox are allowed; otherwise the stored preference that decides for the
/// tool and the path decides when it says `allow` or `deny`.
pub open spec fn fast_path(c: CacheView, t: Seq<char>, d: Seq<char>, in_sandbox: bool) -> Option<Verdict> {
    if extracted_path(d) is Some && in_sandbox {
        Some(Verdict::Allow)
    } else {
        match lookup(c, t) {
            Some(es) => if es.len() > 0 {
                match best_match(es, extracted_path(d)) {
                    Some(i) => if es[i].1 == "allow"@ {
                        Some(Verdict::Allow)
                    } else if es[i].1 == "deny"@ {
                        Some(Verdict::Deny(denied_by_preference(t)))
                    } else {
                        None
                    },
                    None => None,
                }
            } else {
                None
            },
            None => None,
        }
    }
}

/// The scope a persistent answer applies to: the path the user chose, else
/// the one derived from the description.
pub open spec fn answer_scope(path: Option<Seq<char>>, d: Seq<char>) -> Option<Seq<char>> {
    match path {
        Some(p) => Some(p),
        None => derived_scope(d),
    }
}

/// View of an answer outcome.
pub enum OutcomeView {
    Allow,
    Deny(Seq<char>),
    AllowAlways(Option<Seq<char>>),
    DenyAlways(Option<Seq<char>>),
    ChannelClosed,
    TimedOut,
}

/// View of an answer outcome.
pub open spec fn outcome_view(o: ResponseOutcome) -> OutcomeView {
    match o {
        ResponseOutcome::Answered(PermissionResponse::Allow) => OutcomeView::Allow,
        ResponseOutcome::Answered(PermissionResponse::Deny { reason }) => OutcomeView::Deny(reason@),
        ResponseOutcome::Answered(PermissionResponse::AllowAlways { path }) => OutcomeView::AllowAlways(
            opt_view(path),
        ),
        ResponseOutcome::Answered(PermissionResponse::DenyAlways { path }) => OutcomeView::DenyAlways(
            opt_view(path),
        ),
        ResponseOutcome::ChannelClosed => OutcomeView::ChannelClosed,
        ResponseOutcome::TimedOut => OutcomeView::TimedOut,
    }
}

/// The permission gate's verdict for an outcome of the user's reply.
pub open spec fn response_verdict(t: Seq<char>, o: OutcomeView, secs: nat) -> Verdict {
    match o {
        OutcomeView::Allow => Verdict::Allow,
        OutcomeView::Deny(r) => Verdict::Deny(r),
        OutcomeView::AllowAlways(_) => Verdict::Allow,
        OutcomeView::DenyAlways(_) => Verdict::Deny(permanently_denied(t)),
        OutcomeView::ChannelClosed => Verdict::Deny(channel_cancelled()),
        OutcomeView::TimedOut => Verdict::Deny(timed_out(secs)),
    }
}

/// The decision an outcome asks to persist, with its scope, if any.
pub open spec fn response_persist(t: Seq<char>, d: Seq<char>, o: OutcomeView) -> Option<(Seq<char>, Seq<char>, Seq<char>)> {
    match o {
        OutcomeView::AllowAlways(p) => match answer_scope(p, d) {
            Some(s) => Some((t, s, "allow"@)),
            None => None,
        },
        OutcomeView::DenyAlways(p) => match answer_scope(p, d) {
            Some(s) => Some((t, s, "deny"@)),
            None => None,
        },
        _ => None,
    }
}

/// The cache after an outcome: persistent answers with a scope are recorded.
pub open spec fn cache_after_response(c: CacheView, t: Seq<char>, d: Seq<char>, o: OutcomeView) -> CacheView {
    match response_persist(t, d, o) {
        Some(p) => cache_upsert(c, p.0, p.1, p.2),
        None => c,
    }
}

fn tool_reason(before: &str, tool: &str, after: &str) -> (s: String)
    ensures
        s@ == before@ + tool@ + after@,
{
    let s = concat(before, tool);
    s.concat(after)
}

/// What the permission gate decides without asking the user, if anything.
///
/// `path_in_sandbox` tells whether the path extracted from `description` lies
/// inside one of the sandbox roots (it is ignored when no path is extracted).
pub fn check_permission_fast_path(
    cache: &PrefCache,
    tool_name: &str,
    description: &str,
    path_in_sandbox: bool,
) -> (r: Option<PermissionResult>)
    requires
        cache.wf(),
    ensures
        match r {
            Some(v) => fast_path(cache@, tool_name@, description@, path_in_sandbox) == Some(v@),
            None => fast_path(cache@, tool_name@, description@, path_in_sandbox) is None,
        },
        extracted_path(description@) is Some && path_in_sandbox ==> r matches Some(
            PermissionResult::Allow,
        ),
{
    let extracted = extract_path_from_description(description);
    if extracted.is_some() && path_in_sandbox {
        return Some(PermissionResult::Allow);
    }
    let entries = match cache.get(tool_name) {
        Some(es) => es,
        None => return None,
    };
    if entries.len() == 0 {
        return None;
    }
    let path: Option<&str> = match &extracted {
        Some(p) => Some(p.as_str()),
        None => None,
    };
    assert(opt_str_view(path) == extracted_path(description@));
    match pick_best_match(entries, path) {
        Some(i) => {
            assert(entries_view(entries@)[i as int] == entries@[i as int]@);
            if str_eq(entries[i].decision.as_str(), "allow") {
                Some(PermissionResult::Allow)
            } else if str_eq(entries[i].decision.as_str(), "deny") {
                Some(
                    PermissionResult::Deny {
                        reason: tool_reason("Tool '", tool_name, "' is denied by user preference"),
                    },
                )
            } else {
                None
            }
        },
        None => None,
    }
}

/// The denial given when the prompt cannot be shown to the user.
pub fn emit_failure_denial() -> (r: PermissionResult)
    ensures
        r@ == Verdict::Deny(emit_failed()),
{
    PermissionResult::Deny { reason: String::from_str("Failed to emit permission request to frontend") }
}

/// Turns the outcome of a permission request into the permission gate's verdict.
///
/// "Always" answers record the decision in `cache` for the user-chosen scope
/// or, failing that, the scope derived from `description`, and return the
/// decision to persist; without a scope nothing is recorded.
pub fn handle_permission_response(
    cache: &mut PrefCache,
    tool_name: &str,
    description: &str,
    outcome: ResponseOutcome,
    timeout_secs: u64,
) -> (r: (PermissionResult, Option<PersistRequest>))
    requires
        old(cache).wf(),
    ensures
        final(cache).wf(),
        r.0@ == response_verdict(tool_name@, outcome_view(outcome), timeout_secs as nat),
        persist_view(r.1) == response_persist(tool_name@, description@, outcome_view(outcome)),
        final(cache)@ == cache_after_response(old(cache)@, tool_name@, description@, outcome_view(outcome)),
        outcome matches ResponseOutcome::Answered(PermissionResponse::AllowAlways { path: Some(p) }) ==> (
        r.1 matches Some(q) && q.tool_name@ == tool_name@ && q.path_pattern@ == p@ && q.decision@
            == "allow"@),
        outcome matches ResponseOutcome::Answered(PermissionResponse::DenyAlways { path: Some(p) }) ==> (
        r.1 matches Some(q) && q.tool_name@ == tool_name@ && q.path_pattern@ == p@ && q.decision@
            == "deny"@),
        (outcome matches ResponseOutcome::Answered(PermissionResponse::AllowAlways { path: None })
            || outcome matches ResponseOutcome::Answered(PermissionResponse::DenyAlways { path: None }))
            ==> match derived_scope(description@) {
            Some(sc) => r.1 matches Some(q) && q.path_pattern@ == sc,
            None => r.1 is None && final(cache)@ == old(cache)@,
        },
{
    let ghost ov = outcome_view(outcome);
    match outcome {
        ResponseOutcome::Answered(PermissionResponse::Allow) => {
            (PermissionResult::Allow, None)
        },
        ResponseOutcome::Answered(PermissionResponse::Deny { reason }) => (
            PermissionResult::Deny { reason },
            None,
        ),
        ResponseOutcome::Answered(PermissionResponse::AllowAlways { path }) => {
            let scope = match path {
                Some(p) => Some(p),
                None => derive_scope_from_description(description),
            };
            let persist = match scope {
                Some(s) => {
                    cache.upsert(tool_name, s.as_str(), "allow");
                    Some(
                        PersistRequest {
                            tool_name: String::from_str(tool_name),
                            path_pattern: s,
                            decision: String::from_str("allow"),
                        },
                    )
                },
                None => None,
            };
            (PermissionResult::Allow, persist)
        },
        ResponseOutcome::Answered(PermissionResponse::DenyAlways { path }) => {
            let scope = match path {
                Some(p) => Some(p),
                None => derive_scope_from_description(description),
            };
            let persist = match scope {
                Some(s) => {
                    cache.upsert(tool_name, s.as_str(), "deny");
                    Some(
                        PersistRequest {
                            tool_name: String::from_str(tool_name),
                            path_pattern: s,
                            decision: String::from_str("deny"),
                        },
                    )
                },
                None => None,
            };
            (
                PermissionResult::Deny {
                    reason: tool_reason("Tool '", tool_name, "' is permanently denied by user"),
                },
                persist,
            )
        },
        ResponseOutcome::ChannelClosed => (
            PermissionResult::Deny {
                reason: String::from_str("Permission request channel was cancelled"),
            },
            None,
        ),
        ResponseOutcome::TimedOut => {
            let mut reason = String::from_str("Permission request timed out after ");
            push_decimal(&mut reason, timeout_secs);
            let ghost before = reason@;
            push_char(&mut reason, 's');
            proof {
                reveal_strlit("s");
                assert("s"@ =~= seq!['s']);
                assert(reason@ =~= before + "s"@);
            }
            assert(reason@ == timed_out(timeout_secs as nat));
            (PermissionResult::Deny { reason }, None)
        },
    }
}

} // verus!

verus! {

/// A persisted permission preference as stored in the database.
#[derive(Debug, Clone)]
pub struct PermissionPreference {
    pub tool_name: String,
    pub path_pattern: Option<String>,
    pub decision: String,
}

/// View of a preference: tool, pattern, decision.
pub type PreferenceView = (Seq<char>, Option<Seq<char>>, Seq<char>);

impl View for PermissionPreference {
    type V = PreferenceView;

    open spec fn view(&self) -> PreferenceView {
        (self.tool_name@, opt_view(self.path_pattern), self.decision@)
    }
}

/// The cache built from a list of preferences: each tool's entries in list order.
pub open spec fn cache_from_preferences(ps: Seq<PreferenceView>) -> CacheView
    decreases ps.len(),
{
    if ps.len() == 0 {
        Seq::empty()
    } else {
        let last = ps.last();
        cache_append(cache_from_preferences(ps.drop_last()), last.0, (last.1, last.2))
    }
}

impl PrefCache {
    /// Builds the cache from persisted preferences, grouping them by tool
    /// (the startup preload and the reload after a change).
    pub fn from_preferences(prefs: Vec<PermissionPreference>) -> (c: PrefCache)
        ensures
            c.wf(),
            c@ == cache_from_preferences(prefs@.map_values(|p: PermissionPreference| p@)),
    {
        let ghost pv = prefs@.map_values(|p: PermissionPreference| p@);
        let mut cache = PrefCache::new();
        let mut i: usize = 0;
        while i < prefs.len()
            invariant
                pv == prefs@.map_values(|p: PermissionPreference| p@),
                i <= prefs@.len(),
                cache.wf(),
                cache@ == cache_from_preferences(pv.take(i as int)),
            decreases prefs@.len() - i,
        {
            let p = &prefs[i];
            let path_pattern = match &p.path_pattern {
                Some(q) => Some(String::from_str(q.as_str())),
                None => None,
            };
            let e = PrefEntry { path_pattern, decision: String::from_str(p.decision.as_str()) };
            cache.append(p.tool_name.as_str(), e);
            proof {
                assert(pv.take(i + 1).drop_last() =~= pv.take(i as int));
                assert(pv.take(i + 1).last() == pv[i as int]);
            }
            i += 1;
        }
        assert(pv.take(prefs@.len() as int) =~= pv);
        cache
    }
}

/// A decision value accepted from the user interface.
pub open spec fn valid_decision(d: Seq<char>) -> bool {
    d == "allow"@ || d == "deny"@
}

/// Checks that a decision is `allow` or `deny`.
pub fn validate_decision(decision: &str) -> (r: Result<(), AppError>)
    ensures
        r is Ok <==> valid_decision(decision@),
        r matches Err(e) ==> e matches AppError::SystemError(m) && m@
            == "decision must be 'allow' or 'deny'"@,
{
    if str_eq(decision, "allow") || str_eq(decision, "deny") {
        Ok(())
    } else {
        Err(AppError::SystemError(String::from_str("decision must be 'allow' or 'deny'")))
    }
}

/// View of pending requests: request ids with their waiting parties.
pub type PendingView<T> = Seq<(Seq<char>, T)>;

/// `i` is the first position of request `id`.
pub open spec fn is_first_request<T>(p: PendingView<T>, id: Seq<char>, i: int) -> bool {
    &&& 0 <= i < p.len()
    &&& p[i].0 == id
    &&& forall|j: int| 0 <= j < i ==> p[j].0 != id
}

/// Position of request `id`, or -1.
pub open spec fn request_index<T>(p: PendingView<T>, id: Seq<char>) -> int {
    if exists|i: int| is_first_request(p, id, i) {
        choose|i: int| is_first_request(p, id, i)
    } else {
        -1
    }
}

/// The pending requests after registering `v` under `id` (replacing a previous one).
pub open spec fn pending_insert<T>(p: PendingView<T>, id: Seq<char>, v: T) -> PendingView<T> {
    if request_index(p, id) >= 0 {
        p.update(request_index(p, id), (id, v))
    } else {
        p.push((id, v))
    }
}

/// The pending requests after removing `id`, with the removed party.
pub open spec fn pending_remove<T>(p: PendingView<T>, id: Seq<char>) -> (PendingView<T>, Option<T>) {
    if request_index(p, id) >= 0 {
        (p.remove(request_index(p, id)), Some(p[request_index(p, id)].1))
    } else {
        (p, None)
    }
}

/// Request ids occur at most once.
pub open spec fn distinct_requests<T>(p: PendingView<T>) -> bool {
    forall|i: int, j: int| 0 <= i < j < p.len() ==> p[i].0 != p[j].0
}

/// Permission requests awaiting the user's answer, keyed by request id.
pub struct PendingRequests<T> {
    ids: Vec<String>,
    waiting: Vec<T>,
}

impl<T> View for PendingRequests<T> {
    type V = PendingView<T>;

    closed spec fn view(&self) -> PendingView<T> {
        Seq::new(self.ids@.len(), |i: int| (self.ids@[i]@, self.waiting@[i]))
    }
}

proof fn lemma_first_request_unique<T>(p: PendingView<T>, id: Seq<char>, i: int, k: int)
    requires
        is_first_request(p, id, i),
        is_first_request(p, id, k),
    ensures
        i == k,
{
    if i < k {
        assert(p[i].0 != id);
    } else if k < i {
        assert(p[k].0 != id);
    }
}

proof fn first_request_of<T>(p: PendingView<T>, id: Seq<char>, i: int) -> (f: int)
    requires
        0 <= i < p.len(),
        p[i].0 == id,
    ensures
        is_first_request(p, id, f),
    decreases i,
{
    if exists|j: int| 0 <= j < i && p[j].0 == id {
        let j = choose|j: int| 0 <= j < i && p[j].0 == id;
        first_request_of(p, id, j)
    } else {
        i
    }
}

/// With ids distinct, a removed request is no longer pending.
proof fn lemma_removed_request_gone<T>(p: PendingView<T>, id: Seq<char>)
    requires
        distinct_requests(p),
    ensures
        request_index(pending_remove(p, id).0, id) == -1,
        distinct_requests(pending_remove(p, id).0),
{
    let q = pending_remove(p, id).0;
    let i = request_index(p, id);
    if i >= 0 {
        let w = choose|k: int| is_first_request(p, id, k);
        assert(is_first_request(p, id, i));
        assert forall|j: int| 0 <= j < q.len() implies q[j].0 != id by {
            if j < i {
                assert(q[j] == p[j]);
            } else {
                assert(q[j] == p[j + 1]);
                assert(p[i].0 != p[j + 1].0);
            }
        }
        assert forall|a: int, b: int| 0 <= a < b < q.len() implies q[a].0 != q[b].0 by {
            let a0 = if a < i { a } else { a + 1 };
            let b0 = if b < i { b } else { b + 1 };
            assert(q[a] == p[a0]);
            assert(q[b] == p[b0]);
        }
    } else {
        assert forall|j: int| 0 <= j < q.len() implies q[j].0 != id by {
            if q[j].0 == id {
                let f = first_request_of(p, id, j);
            }
        }
    }
    assert forall|k: int| !is_first_request(q, id, k) by {
        if is_first_request(q, id, k) {
            assert(q[k].0 == id);
        }
    }
}

impl<T> PendingRequests<T> {
    /// Well-formedness: one party per id, each id at most once.
    pub closed spec fn wf(&self) -> bool {
        &&& self.ids@.len() == self.waiting@.len()
        &&& distinct_requests(self@)
    }

    /// No pending requests.
    pub fn new() -> (r: PendingRequests<T>)
        ensures
            r.wf(),
            distinct_requests(r@),
            r@ == Seq::<(Seq<char>, T)>::empty(),
    {
        let r = PendingRequests { ids: Vec::new(), waiting: Vec::new() };
        assert(r@ =~= Seq::<(Seq<char>, T)>::empty());
        r
    }

    /// Number of pending requests.
    pub fn len(&self) -> (n: usize)
        requires
            self.wf(),
        ensures
            n == self@.len(),
    {
        self.ids.len()
    }

    fn find(&self, id: &str) -> (r: Option<usize>)
        requires
            self.wf(),
        ensures
            match r {
                Some(i) => request_index(self@, id@) == i as int && i < self.ids@.len(),
                None => request_index(self@, id@) == -1,
            },
    {
        let mut i: usize = 0;
        while i < self.ids.len()
            invariant
                self.wf(),
                i <= self.ids@.len(),
                forall|j: int| 0 <= j < i ==> (#[trigger] self@[j]).0 != id@,
            decreases self.ids@.len() - i,
        {
            assert(self@[i as int].0 == self.ids@[i as int]@);
            if str_eq(self.ids[i].as_str(), id) {
                proof {
                    assert(is_first_request(self@, id@, i as int));
                    let k = choose|k: int| is_first_request(self@, id@, k);
                    lemma_first_request_unique(self@, id@, i as int, k);
                }
                return Some(i);
            }
            i += 1;
        }
        proof {
            assert forall|k: int| !is_first_request(self@, id@, k) by {
                if is_first_request(self@, id@, k) {
                    assert(self@[k].0 != id@);
                }
            }
        }
        None
    }

    /// Registers `v` as waiting for the answer to request `id`.
    pub fn insert(&mut self, id: &str, v: T)
        requires
            old(self).wf(),
        ensures
            final(self).wf(),
            distinct_requests(final(self)@),
            final(self)@ == pending_insert(old(self)@, id@, v),
    {
        let ghost p0 = self@;
        match self.find(id) {
            Some(i) => {
                self.waiting.set(i, v);
                assert(self@ =~= pending_insert(p0, id@, v));
            },
            None => {
                self.ids.push(String::from_str(id));
                self.waiting.push(v);
                assert(self@ =~= pending_insert(p0, id@, v));
                assert forall|i: int, j: int| 0 <= i < j < self@.len() implies self@[i].0
                    != self@[j].0 by {
                    if j == p0.len() && p0[i].0 == id@ {
                        let f = first_request_of(p0, id@, i);
                        assert(is_first_request(p0, id@, f));
                    }
                }
            },
        }
    }

    /// Removes request `id`, returning the party waiting for it.
    pub fn remove(&mut self, id: &str) -> (r: Option<T>)
        requires
            old(self).wf(),
        ensures
            final(self).wf(),
            distinct_requests(final(self)@),
            (final(self)@, r) == pending_remove(old(self)@, id@),
            request_index(final(self)@, id@) == -1,
    {
        let ghost p0 = self@;
        proof {
            lemma_removed_request_gone(p0, id@);
        }
        match self.find(id) {
            Some(i) => {
                self.ids.remove(i);
                let v = self.waiting.remove(i);
                assert(self@ =~= p0.remove(i as int));
                Some(v)
            },
            None => None,
        }
    }

    /// Takes the party waiting for request `id`, or reports that no such
    /// request is pending (it timed out, or the id is unknown).
    pub fn resolve(&mut self, id: &str) -> (r: Result<T, AppError>)
        requires
            old(self).wf(),
        ensures
            final(self).wf(),
            distinct_requests(final(self)@),
            final(self)@ == pending_remove(old(self)@, id@).0,
            request_index(final(self)@, id@) == -1,
            match r {
                Ok(v) => pending_remove(old(self)@, id@).1 == Some(v),
                Err(e) => pending_remove(old(self)@, id@).1 is None && (e matches AppError::PermissionError(
                    m,
                ) && m@ == "No pending permission request with id="@ + id@),
            },
    {
        match self.remove(id) {
            Some(v) => Ok(v),
            None => Err(
                AppError::PermissionError(
                    concat("No pending permission request with id=", id),
                ),
            ),
        }
    }
}

/// The error reported when an answer cannot be handed to the waiting party.
pub fn dispatch_error(request_id: &str) -> (e: AppError)
    ensures
        e matches AppError::PermissionError(m) && m@
            == "Failed to dispatch permission response for request_id="@ + request_id@,
{
    AppError::PermissionError(
        concat("Failed to dispatch permission response for request_id=", request_id),
    )
}

} // verus!

use vstd::prelude::*;

use crate::text::decimal;
use crate::text::lemma_lex_antisymmetric;
use crate::text::lemma_lex_total;
use crate::text::lemma_lex_transitive;
use crate::text::lex_le;
use crate::text::push_char;
use crate::text::str_le;
use crate::types::Doi;
use crate::types::PathId;

verus! {

/// `x` placed into `s` before the first element whose key comes after its
/// own.
pub open spec fn insert_by<A>(x: A, s: Seq<A>, key: spec_fn(A) -> Seq<char>) -> Seq<A>
    decreases s.len(),
{
    if s.len() == 0 {
        seq![x]
    } else if !lex_le(key(s[0]), key(x)) {
        seq![x] + s
    } else {
        seq![s[0]] + insert_by(x, s.drop_first(), key)
    }
}

/// `s` ordered by key, elements of equal keys in their order in `s`.
pub open spec fn sort_by<A>(s: Seq<A>, key: spec_fn(A) -> Seq<char>) -> Seq<A>
    decreases s.len(),
{
    if s.len() == 0 {
        s
    } else {
        insert_by(s.last(), sort_by(s.drop_last(), key), key)
    }
}

/// The keys of `s` never decrease.
pub open spec fn ordered_by<A>(s: Seq<A>, key: spec_fn(A) -> Seq<char>) -> bool {
    forall|i: int, j: int| 0 <= i < j < s.len() ==> lex_le(key(#[trigger] s[i]), key(#[trigger] s[j]))
}

proof fn lemma_insert_by_at<A>(x: A, s: Seq<A>, key: spec_fn(A) -> Seq<char>, p: int)
    requires
        0 <= p <= s.len(),
        forall|j: int| 0 <= j < p ==> lex_le(key(#[trigger] s[j]), key(x)),
        p < s.len() ==> !lex_le(key(s[p]), key(x)),
    ensures
        insert_by(x, s, key) == s.insert(p, x),
    decreases s.len(),
{
    if s.len() == 0 {
        assert(s.insert(p, x) =~= seq![x]);
    } else if p == 0 {
        assert(s.insert(p, x) =~= seq![x] + s);
    } else {
        let t = s.drop_first();
        assert forall|j: int| 0 <= j < p - 1 implies lex_le(key(#[trigger] t[j]), key(x)) by {
            assert(t[j] == s[j + 1]);
        }
        lemma_insert_by_at(x, t, key, p - 1);
        assert(s.insert(p, x) =~= seq![s[0]] + t.insert(p - 1, x));
    }
}

proof fn lemma_insert_by_len<A>(x: A, s: Seq<A>, key: spec_fn(A) -> Seq<char>)
    ensures
        insert_by(x, s, key).len() == s.len() + 1,
    decreases s.len(),
{
    if s.len() > 0 {
        lemma_insert_by_len(x, s.drop_first(), key);
    }
}

proof fn lemma_sort_by_len<A>(s: Seq<A>, key: spec_fn(A) -> Seq<char>)
    ensures
        sort_by(s, key).len() == s.len(),
    decreases s.len(),
{
    if s.len() > 0 {
        lemma_sort_by_len(s.drop_last(), key);
        lemma_insert_by_len(s.last(), sort_by(s.drop_last(), key), key);
    }
}

proof fn lemma_insert_by_bound<A>(low: Seq<char>, x: A, s: Seq<A>, key: spec_fn(A) -> Seq<char>)
    requires
        lex_le(low, key(x)),
        forall|j: int| 0 <= j < s.len() ==> lex_le(low, key(#[trigger] s[j])),
    ensures
        forall|k: int| 0 <= k < insert_by(x, s, key).len() ==> lex_le(low, key(#[trigger] insert_by(x, s, key)[k])),
    decreases s.len(),
{
    if s.len() > 0 && lex_le(key(s[0]), key(x)) {
        let t = s.drop_first();
        assert forall|j: int| 0 <= j < t.len() implies lex_le(low, key(#[trigger] t[j])) by {
            assert(t[j] == s[j + 1]);
        }
        lemma_insert_by_bound(low, x, t, key);
        assert forall|k: int| 0 <= k < insert_by(x, s, key).len() implies lex_le(
            low,
            key(#[trigger] insert_by(x, s, key)[k]),
        ) by {
            if k > 0 {
                assert(insert_by(x, s, key)[k] == insert_by(x, t, key)[k - 1]);
            }
        }
    }
}

proof fn lemma_insert_by_ordered<A>(x: A, s: Seq<A>, key: spec_fn(A) -> Seq<char>)
    requires
        ordered_by(s, key),
    ensures
        ordered_by(insert_by(x, s, key), key),
    decreases s.len(),
{
    if s.len() == 0 {
    } else if !lex_le(key(s[0]), key(x)) {
        lemma_lex_total(key(s[0]), key(x));
        let r = seq![x] + s;
        assert(insert_by(x, s, key) == r);
        assert forall|i: int, j: int| 0 <= i < j < r.len() implies lex_le(key(#[trigger] r[i]), key(#[trigger] r[j])) by {
            if i == 0 {
                if j > 1 {
                    lemma_lex_transitive(key(x), key(s[0]), key(s[j - 1]));
                }
            } else {
                assert(r[i] == s[i - 1] && r[j] == s[j - 1]);
            }
        }
    } else {
        let t = s.drop_first();
        assert(ordered_by(t, key)) by {
            assert forall|i: int, j: int| 0 <= i < j < t.len() implies lex_le(key(#[trigger] t[i]), key(#[trigger] t[j])) by {
                assert(t[i] == s[i + 1] && t[j] == s[j + 1]);
            }
        }
        lemma_insert_by_ordered(x, t, key);
        assert forall|j: int| 0 <= j < t.len() implies lex_le(key(s[0]), key(#[trigger] t[j])) by {
            assert(t[j] == s[j + 1]);
        }
        lemma_insert_by_bound(key(s[0]), x, t, key);
        let r = seq![s[0]] + insert_by(x, t, key);
        assert(insert_by(x, s, key) == r);
        assert forall|i: int, j: int| 0 <= i < j < r.len() implies lex_le(key(#[trigger] r[i]), key(#[trigger] r[j])) by {
            if i == 0 {
                assert(r[j] == insert_by(x, t, key)[j - 1]);
            } else {
                assert(r[i] == insert_by(x, t, key)[i - 1] && r[j] == insert_by(x, t, key)[j - 1]);
            }
        }
    }
}

/// Sorting by key orders the keys: the locations in a header, and the blocks
/// of the citation file by their first location, come in lexicographic order.
pub proof fn lemma_sort_by_ordered<A>(s: Seq<A>, key: spec_fn(A) -> Seq<char>)
    ensures
        ordered_by(sort_by(s, key), key),
    decreases s.len(),
{
    if s.len() > 0 {
        lemma_sort_by_ordered(s.drop_last(), key);
        lemma_insert_by_ordered(s.last(), sort_by(s.drop_last(), key), key);
    }
}

/// A text as its own key.
pub open spec fn text_key() -> spec_fn(Seq<char>) -> Seq<char> {
    |t: Seq<char>| t
}

/// The texts `s` in lexicographic order.
pub open spec fn sort_texts(s: Seq<Seq<char>>) -> Seq<Seq<char>> {
    sort_by(s, text_key())
}

/// The texts of locations.
pub open spec fn path_texts(ps: Seq<PathId>) -> Seq<Seq<char>> {
    ps.map_values(|p: PathId| p.0@)
}

/// Sorts locations lexicographically.
pub fn sort_path_ids(paths: &Vec<PathId>) -> (r: Vec<PathId>)
    ensures
        path_texts(r@) == sort_texts(path_texts(paths@)),
{
    let mut r: Vec<PathId> = Vec::new();
    let mut i: usize = 0;
    while i < paths.len()
        invariant
            i <= paths@.len(),
            path_texts(r@) == sort_texts(path_texts(paths@.take(i as int))),
        decreases paths@.len() - i,
    {
        let x = &paths[i];
        let mut p: usize = 0;
        while p < r.len() && str_le(r[p].0.as_str(), x.0.as_str())
            invariant
                p <= r@.len(),
                forall|j: int| 0 <= j < p ==> lex_le(#[trigger] path_texts(r@)[j], x.0@),
            decreases r@.len() - p,
        {
            assert(path_texts(r@)[p as int] == r@[p as int].0@);
            p = p + 1;
        }
        proof {
            if p < r@.len() {
                assert(path_texts(r@)[p as int] == r@[p as int].0@);
            }
            lemma_insert_by_at(x.0@, path_texts(r@), text_key(), p as int);
            assert(path_texts(paths@.take(i + 1)).drop_last() =~= path_texts(paths@.take(i as int)));
            assert(path_texts(r@.insert(p as int, *x)) =~= path_texts(r@).insert(p as int, x.0@));
        }
        r.insert(p, x.duplicate());
        i = i + 1;
    }
    assert(paths@.take(paths@.len() as int) =~= paths@);
    r
}

/// One DOI met during a walk: the locations that carry it, and its citation
/// record or the error of its fetch, once known.
#[derive(Debug, Clone)]
pub struct Citation {
    pub doi: Doi,
    pub path_ids: Vec<PathId>,
    pub content: Option<String>,
}

/// A citation as plain text.
pub struct CitationView {
    pub doi: Seq<char>,
    pub path_ids: Seq<Seq<char>>,
    pub content: Option<Seq<char>>,
}

impl View for Citation {
    type V = CitationView;

    open spec fn view(&self) -> CitationView {
        CitationView {
            doi: self.doi.0@,
            path_ids: path_texts(self.path_ids@),
            content: match self.content {
                Some(text) => Some(text@),
                None => None,
            },
        }
    }
}

/// `items` joined by `, `.
pub open spec fn comma_joined(items: Seq<Seq<char>>) -> Seq<char>
    decreases items.len(),
{
    if items.len() == 0 {
        Seq::empty()
    } else if items.len() == 1 {
        items[0]
    } else {
        comma_joined(items.drop_last()) + seq![',', ' '] + items.last()
    }
}

/// The comment line that lists sorted locations: all of them when there are
/// fewer than six, else the first three, how many more there are before the
/// last, and the last.
pub open spec fn header_line(paths: Seq<Seq<char>>) -> Seq<char> {
    if paths.len() < 6 {
        seq!['%', ' '] + comma_joined(paths) + seq!['\n']
    } else {
        seq!['%', ' '] + comma_joined(paths.take(3)) + seq![',', ' ', '.', '.', '.', ' ', '(']
            + decimal((paths.len() - 4) as nat) + seq![' ', 'm', 'o', 'r', 'e', ')', ',', ' ']
            + paths.last() + seq!['\n']
    }
}

/// The block of one citation: the locations, the DOI, then the record if known.
pub open spec fn citation_block(c: CitationView) -> Seq<char> {
    header_line(sort_texts(c.path_ids)) + seq![
        '%',
        ' ',
        'D',
        'O',
        'I',
        ' ',
    ] + c.doi + seq!['\n'] + match c.content {
        Some(text) => text,
        None => Seq::empty(),
    }
}

/// The key by which a citation is ordered in the file: its first location in
/// lexicographic order.
pub open spec fn citation_key(c: CitationView) -> Seq<char> {
    sort_texts(c.path_ids)[0]
}

/// The blocks of `cs`, separated by empty lines.
pub open spec fn blocks(cs: Seq<CitationView>) -> Seq<char>
    decreases cs.len(),
{
    if cs.len() == 0 {
        Seq::empty()
    } else if cs.len() == 1 {
        citation_block(cs[0])
    } else {
        blocks(cs.drop_last()) + seq!['\n'] + citation_block(cs.last())
    }
}

/// A citation keyed by its first location.
pub open spec fn citation_keys() -> spec_fn(CitationView) -> Seq<char> {
    |c: CitationView| citation_key(c)
}

/// The citations `s` ordered by their first location.
pub open spec fn sort_citations(s: Seq<CitationView>) -> Seq<CitationView> {
    sort_by(s, citation_keys())
}

/// The citation file: the blocks ordered by their first location.
pub open spec fn citation_file(cs: Seq<CitationView>) -> Seq<char> {
    blocks(sort_citations(cs))
}

/// Appends `items` joined by `, `.
fn push_comma_joined(s: &mut String, items: &Vec<PathId>, count: usize)
    requires
        count <= items@.len(),
    ensures
        final(s)@ == old(s)@ + comma_joined(path_texts(items@).take(count as int)),
{
    let ghost start = old(s)@;
    let mut i: usize = 0;
    while i < count
        invariant
            count <= items@.len(),
            i <= count,
            s@ == start + comma_joined(path_texts(items@).take(i as int)),
        decreases count - i,
    {
        if i > 0 {
            push_char(s, ',');
            push_char(s, ' ');
        }
        s.append(items[i].0.as_str());
        proof {
            let t = path_texts(items@).take(i + 1);
            assert(t.drop_last() =~= path_texts(items@).take(i as int));
            assert(t.last() == items@[i as int].0@);
            if i == 0 {
                assert(comma_joined(t) == t[0]);
            }
        }
        i = i + 1;
    }
}

/// Appends the comment line that lists the sorted locations `paths`.
fn push_header(s: &mut String, paths: &Vec<PathId>)
    requires
        paths@.len() > 0,
    ensures
        final(s)@ == old(s)@ + header_line(path_texts(paths@)),
{
    let ghost texts = path_texts(paths@);
    push_char(s, '%');
    push_char(s, ' ');
    let n = paths.len();
    if n < 6 {
        push_comma_joined(s, paths, n);
        assert(texts.take(n as int) =~= texts);
    } else {
        push_comma_joined(s, paths, 3);
        push_char(s, ',');
        push_char(s, ' ');
        push_char(s, '.');
        push_char(s, '.');
        push_char(s, '.');
        push_char(s, ' ');
        push_char(s, '(');
        crate::text::push_decimal(s, (n - 4) as u64);
        push_char(s, ' ');
        push_char(s, 'm');
        push_char(s, 'o');
        push_char(s, 'r');
        push_char(s, 'e');
        push_char(s, ')');
        push_char(s, ',');
        push_char(s, ' ');
        s.append(paths[n - 1].0.as_str());
        assert(texts.last() == paths@[n - 1].0@);
    }
    push_char(s, '\n');
    assert(s@ =~= old(s)@ + header_line(texts));
}

/// Appends the block of a citation whose locations, sorted, are `sorted`.
fn push_block(s: &mut String, c: &Citation, sorted: &Vec<PathId>)
    requires
        c@.path_ids.len() > 0,
        path_texts(sorted@) == sort_texts(c@.path_ids),
    ensures
        final(s)@ == old(s)@ + citation_block(c@),
{
    proof {
        lemma_sort_by_len(c@.path_ids, text_key());
    }
    push_header(s, sorted);
    push_char(s, '%');
    push_char(s, ' ');
    push_char(s, 'D');
    push_char(s, 'O');
    push_char(s, 'I');
    push_char(s, ' ');
    s.append(c.doi.0.as_str());
    push_char(s, '\n');
    match &c.content {
        Some(text) => s.append(text.as_str()),
        None => {},
    }
    assert(s@ =~= old(s)@ + citation_block(c@));
}

/// The DOIs met during a walk, each once, in the order they were first met.
pub struct Citations {
    entries: Vec<Citation>,
}

impl View for Citations {
    type V = Seq<CitationView>;

    closed spec fn view(&self) -> Seq<CitationView> {
        self.entries@.map_values(|c: Citation| c@)
    }
}

impl Citations {
    /// No DOI appears twice, and each has at least one location.
    pub closed spec fn wf(&self) -> bool {
        &&& forall|i: int, j: int|
            0 <= i < j < self@.len() ==> #[trigger] self@[i].doi != #[trigger] self@[j].doi
        &&& forall|i: int| 0 <= i < self@.len() ==> #[trigger] self@[i].path_ids.len() > 0
    }

    /// No citations.
    pub fn new() -> (r: Citations)
        ensures
            r.wf(),
            r@ == Seq::<CitationView>::empty(),
    {
        let r = Citations { entries: Vec::new() };
        assert(r@ =~= Seq::<CitationView>::empty());
        r
    }

    fn find(&self, doi: &Doi) -> (r: Option<usize>)
        ensures
            r is Some ==> r.unwrap() < self@.len() && self@[r.unwrap() as int].doi == doi.0@,
            r is None ==> forall|k: int| 0 <= k < self@.len() ==> #[trigger] self@[k].doi != doi.0@,
    {
        let mut i: usize = 0;
        while i < self.entries.len()
            invariant
                i <= self@.len(),
                self@.len() == self.entries@.len(),
                forall|k: int| 0 <= k < i ==> #[trigger] self@[k].doi != doi.0@,
            decreases self.entries@.len() - i,
        {
            assert(self@[i as int] == self.entries@[i as int]@);
            if self.entries[i].doi.0 == doi.0 {
                return Some(i);
            }
            i = i + 1;
        }
        None
    }

    /// Records that `path_id` carries `doi`. Returns whether the DOI is new,
    /// that is whether its record is to be fetched.
    pub fn record(&mut self, path_id: PathId, doi: Doi) -> (fetch: bool)
        requires
            old(self).wf(),
        ensures
            final(self).wf(),
            forall|k: int|
                0 <= k < old(self)@.len() && #[trigger] old(self)@[k].doi == doi.0@ ==> !fetch
                    && final(self)@ == old(self)@.update(
                    k,
                    CitationView {
                        doi: old(self)@[k].doi,
                        path_ids: old(self)@[k].path_ids.push(path_id.0@),
                        content: old(self)@[k].content,
                    },
                ),
            (forall|k: int| 0 <= k < old(self)@.len() ==> #[trigger] old(self)@[k].doi != doi.0@)
                ==> fetch && final(self)@ == old(self)@.push(
                CitationView { doi: doi.0@, path_ids: seq![path_id.0@], content: None },
            ),
    {
        match self.find(&doi) {
            Some(k) => {
                let ghost before = self@;
                let ghost before_entries = self.entries@;
                let mut entry = self.entries.remove(k);
                let ghost old_ids = entry.path_ids@;
                entry.path_ids.push(path_id);
                proof {
                    assert(path_texts(entry.path_ids@) =~= path_texts(old_ids).push(path_id.0@));
                    assert(before[k as int] == before_entries[k as int]@);
                }
                self.entries.insert(k, entry);
                proof {
                    assert(self.entries@ =~= before_entries.update(k as int, entry));
                    assert(self@ =~= before.update(
                        k as int,
                        CitationView {
                            doi: before[k as int].doi,
                            path_ids: before[k as int].path_ids.push(path_id.0@),
                            content: before[k as int].content,
                        },
                    ));
                    assert forall|j: int| 0 <= j < before.len() && #[trigger] before[j].doi == doi.0@ implies j
                        == k by {
                        if j != k {
                            if j < k {
                                assert(before[j].doi != before[k as int].doi);
                            } else {
                                assert(before[k as int].doi != before[j].doi);
                            }
                        }
                    }
                }
                false
            },
            None => {
                let ghost before = self@;
                let mut path_ids = Vec::new();
                path_ids.push(path_id);
                self.entries.push(Citation { doi, path_ids, content: None });
                proof {
                    assert(path_texts(self.entries@.last().path_ids@) =~= seq![self.entries@.last().path_ids@[0].0@]);
                    assert(self@ =~= before.push(
                        CitationView { doi: doi.0@, path_ids: seq![path_id.0@], content: None },
                    ));
                }
                true
            },
        }
    }

    /// Sets the record of `doi`, or the error of its fetch. Returns whether the
    /// DOI was recorded; nothing changes when it was not.
    pub fn set_content(&mut self, doi: &Doi, content: String) -> (found: bool)
        requires
            old(self).wf(),
        ensures
            final(self).wf(),
            forall|k: int|
                0 <= k < old(self)@.len() && #[trigger] old(self)@[k].doi == doi.0@ ==> found
                    && final(self)@ == old(self)@.update(
                    k,
                    CitationView {
                        doi: old(self)@[k].doi,
                        path_ids: old(self)@[k].path_ids,
                        content: Some(content@),
                    },
                ),
            (forall|k: int| 0 <= k < old(self)@.len() ==> #[trigger] old(self)@[k].doi != doi.0@)
                ==> !found && final(self)@ == old(self)@,
    {
        match self.find(doi) {
            Some(k) => {
                let ghost before = self@;
                let ghost before_entries = self.entries@;
                let mut entry = self.entries.remove(k);
                entry.content = Some(content);
                proof {
                    assert(before[k as int] == before_entries[k as int]@);
                }
                self.entries.insert(k, entry);
                proof {
                    assert(self.entries@ =~= before_entries.update(k as int, entry));
                    assert(self@ =~= before.update(
                        k as int,
                        CitationView {
                            doi: before[k as int].doi,
                            path_ids: before[k as int].path_ids,
                            content: Some(content@),
                        },
                    ));
                    assert forall|j: int| 0 <= j < before.len() && #[trigger] before[j].doi == doi.0@ implies j
                        == k by {
                        if j != k {
                            if j < k {
                                assert(before[j].doi != before[k as int].doi);
                            } else {
                                assert(before[k as int].doi != before[j].doi);
                            }
                        }
                    }
                }
                true
            },
            None => false,
        }
    }

    /// The citation file: for each DOI, ordered by its first location, the
    /// sorted locations, the DOI, and its record once known.
    pub fn text(&self) -> (r: String)
        requires
            self.wf(),
        ensures
            r@ == citation_file(self@),
    {
        let n = self.entries.len();
        let mut sorted: Vec<Vec<PathId>> = Vec::new();
        let mut i: usize = 0;
        while i < n
            invariant
                n == self@.len(),
                self.wf(),
                i <= n,
                sorted@.len() == i,
                forall|k: int| 0 <= k < i ==> path_texts(#[trigger] sorted@[k]@) == sort_texts(self@[k].path_ids),
            decreases n - i,
        {
            assert(self@[i as int] == self.entries@[i as int]@);
            sorted.push(sort_path_ids(&self.entries[i].path_ids));
            i = i + 1;
        }
        let mut order: Vec<usize> = Vec::new();
        let ghost views = self@;
        i = 0;
        while i < n
            invariant
                n == views.len(),
                views == self@,
                self.wf(),
                sorted@.len() == n,
                forall|k: int| 0 <= k < n ==> path_texts(#[trigger] sorted@[k]@) == sort_texts(views[k].path_ids),
                i <= n,
                forall|k: int| 0 <= k < order@.len() ==> #[trigger] order@[k] < n,
                order@.map_values(|k: usize| views[k as int]) == sort_citations(views.take(i as int)),
            decreases n - i,
        {
            proof {
                lemma_sort_by_len(views[i as int].path_ids, text_key());
            }
            let key = &sorted[i][0];
            proof {
                assert(path_texts(sorted@[i as int]@).len() == sorted@[i as int]@.len());
            }
            let ghost ordered = order@.map_values(|k: usize| views[k as int]);
            let mut p: usize = 0;
            loop
                invariant
                    p <= order@.len(),
                    n == views.len(),
                    i < n,
                    sorted@.len() == n,
                    forall|k: int| 0 <= k < n ==> path_texts(#[trigger] sorted@[k]@) == sort_texts(views[k].path_ids),
                    key == sorted@[i as int]@[0],
                    views == self@,
                    self.wf(),
                    sort_texts(views[i as int].path_ids).len() > 0,
                    ordered == order@.map_values(|k: usize| views[k as int]),
                    forall|k: int| 0 <= k < order@.len() ==> #[trigger] order@[k] < n,
                    forall|j: int| 0 <= j < p ==> lex_le(citation_key(#[trigger] ordered[j]), citation_key(views[i as int])),
                ensures
                    p <= order@.len(),
                    forall|j: int| 0 <= j < p ==> lex_le(citation_key(#[trigger] ordered[j]), citation_key(views[i as int])),
                    p < order@.len() ==> !lex_le(citation_key(ordered[p as int]), citation_key(views[i as int])),
                decreases order@.len() - p,
            {
                if p >= order.len() {
                    break;
                }
                let o = order[p];
                proof {
                    lemma_sort_by_len(views[o as int].path_ids, text_key());
                    assert(path_texts(sorted@[o as int]@).len() == sorted@[o as int]@.len());
                    assert(path_texts(sorted@[o as int]@)[0] == sorted@[o as int]@[0].0@);
                    assert(path_texts(sorted@[i as int]@)[0] == sorted@[i as int]@[0].0@);
                    assert(ordered[p as int] == views[o as int]);
                }
                if !str_le(sorted[o][0].0.as_str(), key.0.as_str()) {
                    break;
                }
                p = p + 1;
            }
            proof {
                lemma_insert_by_at(views[i as int], ordered, citation_keys(), p as int);
                assert(views.take(i + 1).drop_last() =~= views.take(i as int));
                assert(order@.insert(p as int, i).map_values(|k: usize| views[k as int]) =~= ordered.insert(p as int, views[i as int]));
            }
            order.insert(p, i);
            i = i + 1;
        }
        assert(views.take(n as int) =~= views);
        proof {
            lemma_sort_by_len(views, citation_keys());
            assert(order@.map_values(|k: usize| views[k as int]).len() == order@.len());
        }
        let mut r = String::new();
        let mut q: usize = 0;
        while q < n
            invariant
                n == views.len(),
                views == self@,
                self.wf(),
                sorted@.len() == n,
                forall|k: int| 0 <= k < n ==> path_texts(#[trigger] sorted@[k]@) == sort_texts(views[k].path_ids),
                order@.len() == n,
                forall|k: int| 0 <= k < order@.len() ==> #[trigger] order@[k] < n,
                q <= n,
                r@ == blocks(order@.map_values(|k: usize| views[k as int]).take(q as int)),
            decreases n - q,
        {
            if q > 0 {
                push_char(&mut r, '\n');
            }
            let o = order[q];
            assert(views[o as int] == self.entries@[o as int]@);
            push_block(&mut r, &self.entries[o], &sorted[o]);
            proof {
                let s = order@.map_values(|k: usize| views[k as int]).take(q + 1);
                assert(s.drop_last() =~= order@.map_values(|k: usize| views[k as int]).take(q as int));
                assert(s.last() == views[o as int]);
                if q == 0 {
                    assert(blocks(s) == citation_block(s[0]));
                }
            }
            q = q + 1;
        }
        proof {
            lemma_sort_by_len(views, citation_keys());
            assert(order@.map_values(|k: usize| views[k as int]).take(n as int) =~= order@.map_values(|k: usize| views[k as int]));
        }
        r
    }
}

/// The URL from which the citation record of `doi` is fetched:
/// `https://doi.org/` followed by the DOI.
pub fn doi_url(doi: &Doi) -> (r: String)
    ensures
        r@ == "https://doi.org/"@ + doi.0@,
{
    let mut r = String::from_str("https://doi.org/");
    r.append(doi.0.as_str());
    r
}

/// The status of a citation fetch that got an answer: an error, holding the
/// body, for any status outside 200 to 299; else a success holding the body,
/// indented when `pretty` is set.
pub fn doi_status_from_response(status: u16, body: String, pretty: crate::types::Pretty) -> (r: crate::types::DoiStatus)
    ensures
        !(200 <= status <= 299) ==> r == crate::types::DoiStatus::Error(body),
        200 <= status <= 299 && !pretty.0 ==> r == crate::types::DoiStatus::Success(body),
        200 <= status <= 299 && pretty.0 && body@.len() <= i64::MAX ==> (r matches crate::types::DoiStatus::Success(
            text,
        ) && text@ == crate::bibtex::pretty(body@)),
        200 <= status <= 299 && pretty.0 && body@.len() > i64::MAX ==> r == crate::types::DoiStatus::Success(body),
{
    if !(200 <= status && status <= 299) {
        crate::types::DoiStatus::Error(body)
    } else if pretty.0 && crate::text::chars_of(body.as_str()).len() as u64 <= i64::MAX as u64 {
        crate::types::DoiStatus::Success(crate::bibtex::prettify(&body))
    } else {
        crate::types::DoiStatus::Success(body)
    }
}

/// The citation file is rewritten whenever a record arrives; a record equal
/// to the one already held leaves the citations, and so the file, as they
/// were.
pub proof fn lemma_same_record_same_file(v: Seq<CitationView>, k: int, content: Seq<char>)
    requires
        0 <= k < v.len(),
        v[k].content == Some(content),
    ensures
        citation_file(
            v.update(k, CitationView { doi: v[k].doi, path_ids: v[k].path_ids, content: Some(content) }),
        ) == citation_file(v),
{
    assert(v.update(k, CitationView { doi: v[k].doi, path_ids: v[k].path_ids, content: Some(content) })
        =~= v);
}

/// How far the walk of one dataset's indices has come: the indices scanned,
/// and the indices known to exist.
#[derive(Debug, Clone)]
pub struct DatasetProgress {
    pub name: crate::types::Name,
    pub current_index_files: usize,
    pub final_index_files: usize,
}

/// The dataset named `name` holds the location `path`: its first name is
/// `name`.
pub open spec fn owns(name: Seq<char>, path: Seq<char>) -> bool {
    path == name || is_prefix(name.push('/'), path)
}

/// `k` is the first dataset that holds `path`.
pub open spec fn is_first_owner(v: Seq<DatasetProgress>, path: Seq<char>, k: int) -> bool {
    &&& 0 <= k < v.len()
    &&& owns(v[k].name.0@, path)
    &&& forall|j: int| 0 <= j < k ==> !owns(#[trigger] v[j].name.0@, path)
}

/// `p` begins `s`.
pub open spec fn is_prefix(p: Seq<char>, s: Seq<char>) -> bool {
    p.len() <= s.len() && s.subrange(0, p.len() as int) == p
}

/// Every dataset has scanned all the indices it is known to have.
pub open spec fn all_scanned(v: Seq<DatasetProgress>) -> bool {
    forall|k: int| 0 <= k < v.len() ==> #[trigger] v[k].current_index_files == v[k].final_index_files
}

/// The walk of all datasets' indices, followed through the messages of the
/// walkers; a message is credited to the dataset whose name is the first name
/// of its location.
pub struct IndexFrontier {
    pub datasets: Vec<DatasetProgress>,
}

impl IndexFrontier {
    /// One dataset for each that is not disabled, with one index to scan: its
    /// root's.
    pub fn new(configuration: &crate::configuration::Configuration) -> (r: IndexFrontier)
        ensures
            r.datasets@.len() == crate::configuration::enabled_positions(
                configuration.datasets@,
                configuration.datasets@.len(),
            ).len(),
            forall|k: int|
                0 <= k < r.datasets@.len() ==> {
                    let at = #[trigger] crate::configuration::enabled_positions(
                        configuration.datasets@,
                        configuration.datasets@.len(),
                    )[k];
                    &&& r.datasets@[k].name == configuration.datasets@[at].name
                    &&& r.datasets@[k].current_index_files == 0
                    &&& r.datasets@[k].final_index_files == 1
                },
    {
        let ghost ds = configuration.datasets@;
        let mut v: Vec<DatasetProgress> = Vec::new();
        let mut i: usize = 0;
        while i < configuration.datasets.len()
            invariant
                ds == configuration.datasets@,
                i <= ds.len(),
                v@.len() == crate::configuration::enabled_positions(ds, i as nat).len(),
                forall|k: int|
                    0 <= k < v@.len() ==> {
                        let at = #[trigger] crate::configuration::enabled_positions(ds, i as nat)[k];
                        &&& v@[k].name == ds[at].name
                        &&& v@[k].current_index_files == 0
                        &&& v@[k].final_index_files == 1
                    },
            decreases ds.len() - i,
        {
            let dataset = &configuration.datasets[i];
            if dataset.mode != crate::configuration::Mode::Disabled {
                v.push(
                    DatasetProgress {
                        name: dataset.name.duplicate(),
                        current_index_files: 0,
                        final_index_files: 1,
                    },
                );
            }
            assert(crate::configuration::enabled_positions(ds, (i + 1) as nat) == if crate::configuration::installable(
                ds[i as int].mode,
            ) is Some {
                crate::configuration::enabled_positions(ds, i as nat).push(i as int)
            } else {
                crate::configuration::enabled_positions(ds, i as nat)
            });
            i = i + 1;
        }
        IndexFrontier { datasets: v }
    }

    fn owner(&self, path_id: &PathId) -> (r: Option<usize>)
        ensures
            r is Some ==> is_first_owner(self.datasets@, path_id.0@, r.unwrap() as int),
            r is None ==> forall|k: int|
                0 <= k < self.datasets@.len() ==> !owns(#[trigger] self.datasets@[k].name.0@, path_id.0@),
    {
        let mut i: usize = 0;
        while i < self.datasets.len()
            invariant
                i <= self.datasets@.len(),
                forall|k: int| 0 <= k < i ==> !owns(#[trigger] self.datasets@[k].name.0@, path_id.0@),
            decreases self.datasets@.len() - i,
        {
            let name = &self.datasets[i].name.0;
            let mut directory = name.clone();
            push_char(&mut directory, '/');
            if path_id.0 == *name || crate::text::starts_with(path_id.0.as_str(), directory.as_str()) {
                return Some(i);
            }
            i = i + 1;
        }
        None
    }

    /// Credits the `children` subdirectories of a loaded index to their
    /// dataset: that many more indices are to be scanned. Returns `false`, and
    /// changes nothing, when the count would leave `usize`.
    pub fn index_loaded(&mut self, path_id: &PathId, children: usize) -> (r: bool)
        ensures
            forall|k: int|
                is_first_owner(old(self).datasets@, path_id.0@, k) ==> if old(self).datasets@[k].final_index_files
                    + children <= usize::MAX {
                    r && final(self).datasets@ == old(self).datasets@.update(
                        k,
                        DatasetProgress {
                            name: old(self).datasets@[k].name,
                            current_index_files: old(self).datasets@[k].current_index_files,
                            final_index_files: (old(self).datasets@[k].final_index_files + children) as usize,
                        },
                    )
                } else {
                    !r && final(self).datasets@ == old(self).datasets@
                },
            (forall|k: int| !is_first_owner(old(self).datasets@, path_id.0@, k)) ==> r
                && final(self).datasets@ == old(self).datasets@,
    {
        match self.owner(path_id) {
            Some(k) => {
                proof {
                    assert forall|j: int| is_first_owner(old(self).datasets@, path_id.0@, j) implies j == k as int by {
                        if j < k {
                            assert(!owns(self.datasets@[j].name.0@, path_id.0@));
                        } else if j > k {
                            assert(!owns(self.datasets@[k as int].name.0@, path_id.0@));
                        }
                    }
                }
                let mut entry = self.datasets.remove(k);
                if entry.final_index_files > usize::MAX - children {
                    self.datasets.insert(k, entry);
                    assert(self.datasets@ =~= old(self).datasets@);
                    return false;
                }
                entry.final_index_files = entry.final_index_files + children;
                self.datasets.insert(k, entry);
                assert(self.datasets@ =~= old(self).datasets@.update(k as int, entry));
                true
            },
            None => {
                proof {
                    assert forall|k: int| !is_first_owner(old(self).datasets@, path_id.0@, k) by {
                    }
                }
                true
            },
        }
    }

    /// Credits a scanned directory to its dataset. Returns whether every
    /// dataset has then scanned all the indices it is known to have; `None`,
    /// with nothing changed, when the count would leave `usize`.
    pub fn directory_scanned(&mut self, path_id: &PathId) -> (r: Option<bool>)
        ensures
            forall|k: int|
                is_first_owner(old(self).datasets@, path_id.0@, k) ==> if old(self).datasets@[k].current_index_files
                    < usize::MAX {
                    final(self).datasets@ == old(self).datasets@.update(
                        k,
                        DatasetProgress {
                            name: old(self).datasets@[k].name,
                            current_index_files: (old(self).datasets@[k].current_index_files + 1) as usize,
                            final_index_files: old(self).datasets@[k].final_index_files,
                        },
                    )
                } else {
                    r is None && final(self).datasets@ == old(self).datasets@
                },
            (forall|k: int| !is_first_owner(old(self).datasets@, path_id.0@, k)) ==> final(self).datasets@
                == old(self).datasets@,
            r is None <==> exists|k: int|
                is_first_owner(old(self).datasets@, path_id.0@, k) && old(self).datasets@[k].current_index_files
                    == usize::MAX,
            r is Some ==> r.unwrap() == all_scanned(final(self).datasets@),
    {
        match self.owner(path_id) {
            Some(k) => {
                proof {
                    assert forall|j: int| is_first_owner(old(self).datasets@, path_id.0@, j) implies j == k as int by {
                        if j < k {
                            assert(!owns(self.datasets@[j].name.0@, path_id.0@));
                        } else if j > k {
                            assert(!owns(self.datasets@[k as int].name.0@, path_id.0@));
                        }
                    }
                }
                let mut entry = self.datasets.remove(k);
                if entry.current_index_files == usize::MAX {
                    assert(is_first_owner(old(self).datasets@, path_id.0@, k as int));
                    self.datasets.insert(k, entry);
                    assert(self.datasets@ =~= old(self).datasets@);
                    return None;
                }
                entry.current_index_files = entry.current_index_files + 1;
                self.datasets.insert(k, entry);
                assert(self.datasets@ =~= old(self).datasets@.update(k as int, entry));
            },
            None => {
                proof {
                    assert forall|k: int| !is_first_owner(old(self).datasets@, path_id.0@, k) by {
                    }
                }
            },
        }
        Some(self.all_scanned())
    }

    /// Whether every dataset has scanned all the indices it is known to have.
    pub fn all_scanned(&self) -> (r: bool)
        ensures
            r == all_scanned(self.datasets@),
    {
        let mut i: usize = 0;
        while i < self.datasets.len()
            invariant
                i <= self.datasets@.len(),
                forall|k: int|
                    0 <= k < i ==> #[trigger] self.datasets@[k].current_index_files
                        == self.datasets@[k].final_index_files,
            decreases self.datasets@.len() - i,
        {
            if self.datasets[i].current_index_files != self.datasets[i].final_index_files {
                return false;
            }
            i = i + 1;
        }
        true
    }
}

proof fn lemma_insert_by_multiset<A>(x: A, s: Seq<A>, key: spec_fn(A) -> Seq<char>)
    ensures
        insert_by(x, s, key).to_multiset() == s.to_multiset().insert(x),
    decreases s.len(),
{
    if s.len() == 0 {
        vstd::seq_lib::to_multiset_insert(s, 0, x);
        assert(s.insert(0, x) =~= seq![x]);
    } else if !lex_le(key(s[0]), key(x)) {
        vstd::seq_lib::to_multiset_insert(s, 0, x);
        assert(s.insert(0, x) =~= seq![x] + s);
    } else {
        let t = s.drop_first();
        let u = insert_by(x, t, key);
        lemma_insert_by_multiset(x, t, key);
        vstd::seq_lib::to_multiset_insert(u, 0, s[0]);
        assert(u.insert(0, s[0]) =~= seq![s[0]] + u);
        vstd::seq_lib::to_multiset_insert(t, 0, s[0]);
        assert(t.insert(0, s[0]) =~= s);
        assert(u.to_multiset().insert(s[0]) =~= s.to_multiset().insert(x));
    }
}

proof fn lemma_sort_by_multiset<A>(s: Seq<A>, key: spec_fn(A) -> Seq<char>)
    ensures
        sort_by(s, key).to_multiset() == s.to_multiset(),
    decreases s.len(),
{
    if s.len() > 0 {
        let r = s.drop_last();
        lemma_sort_by_multiset(r, key);
        lemma_insert_by_multiset(s.last(), sort_by(r, key), key);
        vstd::seq_lib::to_multiset_insert(r, r.len() as int, s.last());
        assert(r.insert(r.len() as int, s.last()) =~= s);
    }
}

/// Two sequences ordered by a key that tells their elements apart, holding
/// the same elements, are equal.
proof fn lemma_ordered_unique<A>(a: Seq<A>, b: Seq<A>, key: spec_fn(A) -> Seq<char>)
    requires
        a.to_multiset() == b.to_multiset(),
        ordered_by(a, key),
        ordered_by(b, key),
        forall|x: A, y: A| a.contains(x) && a.contains(y) && key(x) == key(y) ==> x == y,
    ensures
        a == b,
    decreases a.len(),
{
    broadcast use vstd::seq_lib::to_multiset_contains, vstd::seq_lib::to_multiset_len;

    if a.len() == 0 {
        assert(b.to_multiset().len() == 0);
        assert(a =~= b);
    } else {
        assert(a.to_multiset().count(a[0]) > 0);
        assert(b.contains(a[0]));
        let j = choose|j: int| 0 <= j < b.len() && b[j] == a[0];
        assert(b.to_multiset().count(b[0]) > 0);
        assert(a.contains(b[0]));
        let i = choose|i: int| 0 <= i < a.len() && a[i] == b[0];
        lemma_lex_total(key(a[0]), key(a[0]));
        lemma_lex_total(key(b[0]), key(b[0]));
        assert(lex_le(key(a[0]), key(a[i])));
        assert(lex_le(key(b[0]), key(b[j])));
        lemma_lex_antisymmetric(key(a[0]), key(b[0]));
        assert(a.contains(a[0]));
        assert(a[0] == b[0]);
        let ta = a.drop_first();
        let tb = b.drop_first();
        vstd::seq_lib::to_multiset_remove(a, 0);
        vstd::seq_lib::to_multiset_remove(b, 0);
        assert(a.remove(0) =~= ta);
        assert(b.remove(0) =~= tb);
        assert forall|x: A| ta.contains(x) implies a.contains(x) by {
            let k = choose|k: int| 0 <= k < ta.len() && ta[k] == x;
            assert(a[k + 1] == x);
        }
        assert forall|p: int, q: int| 0 <= p < q < ta.len() implies lex_le(key(#[trigger] ta[p]), key(#[trigger] ta[q])) by {
            assert(ta[p] == a[p + 1] && ta[q] == a[q + 1]);
        }
        assert forall|p: int, q: int| 0 <= p < q < tb.len() implies lex_le(key(#[trigger] tb[p]), key(#[trigger] tb[q])) by {
            assert(tb[p] == b[p + 1] && tb[q] == b[q + 1]);
        }
        lemma_ordered_unique(ta, tb, key);
        assert(a.to_multiset().len() == b.to_multiset().len());
        assert forall|k: int| 0 <= k < a.len() implies a[k] == b[k] by {
            if k > 0 {
                assert(a[k] == ta[k - 1] && b[k] == tb[k - 1]);
            }
        }
        assert(a =~= b);
    }
}

/// The citation file does not depend on the order in which the DOIs were
/// first met: citations holding the same entries give the same file, so long
/// as no two of them share their first location.
pub proof fn lemma_citation_file_order_free(v: Seq<CitationView>, w: Seq<CitationView>)
    requires
        v.to_multiset() == w.to_multiset(),
        forall|i: int, j: int|
            0 <= i < v.len() && 0 <= j < v.len() && #[trigger] citation_key(v[i]) == #[trigger] citation_key(v[j])
                ==> i == j,
    ensures
        citation_file(v) == citation_file(w),
{
    broadcast use vstd::seq_lib::to_multiset_contains;

    let key = citation_keys();
    let a = sort_by(v, key);
    let b = sort_by(w, key);
    lemma_sort_by_multiset(v, key);
    lemma_sort_by_multiset(w, key);
    lemma_sort_by_ordered(v, key);
    lemma_sort_by_ordered(w, key);
    assert forall|x: CitationView, y: CitationView| a.contains(x) && a.contains(y) && key(x) == key(y) implies x == y by {
        assert(a.to_multiset().count(x) > 0 && a.to_multiset().count(y) > 0);
        assert(v.contains(x) && v.contains(y));
        let i = choose|i: int| 0 <= i < v.len() && v[i] == x;
        let j = choose|j: int| 0 <= j < v.len() && v[j] == y;
        assert(citation_key(v[i]) == citation_key(v[j]));
    }
    lemma_ordered_unique(a, b, key);
}

} // verus!

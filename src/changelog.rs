//! The changelog: tags ordered by version, the commit range of each
//! release, commits grouped into sections by their first word, and the
//! Markdown text of it all.

use std::cmp::Ordering;
use vstd::prelude::*;

use crate::date::{opt_text, utc_date, utc_date_of};
use crate::text::{first_word, first_word_of, indent_lines, prefix_of, push_indented, push_prefix};
use crate::version::{
    compare_versions, format_version, lemma_compare_total_order, lemma_compare_transitive,
    parse_version, Version,
};

verus! {

/// A release tag: its name, the commit it marks and that commit's time in
/// seconds since the Unix epoch.
#[derive(Clone, Debug, PartialEq, Eq)]
pub struct Tag {
    pub name: String,
    pub commit_id: String,
    pub timestamp: i64,
}

/// A commit as the changelog reads it.
#[derive(Clone, Debug, PartialEq, Eq)]
pub struct Commit {
    pub id: String,
    pub author: String,
    pub message: String,
}

/// The commits reachable from `head` but not from `base`; with no `base`,
/// all of the history of `head`.
#[derive(Clone, Debug, PartialEq, Eq)]
pub struct CommitRange {
    pub head: String,
    pub base: Option<String>,
}

/// A tag with the commits of its range, most recent first.
#[derive(Clone, Debug, PartialEq, Eq)]
pub struct TagCommits {
    pub tag: Tag,
    pub commits: Vec<Commit>,
}

/// The entries of one section: commits that share a first word.
#[derive(Clone, Debug, PartialEq, Eq)]
pub struct Section {
    pub key: String,
    pub entries: Vec<String>,
}

/// One release of the changelog: its key (a tag name, or the version being
/// released), its date when known, and its sections in insertion order.
#[derive(Clone, Debug, PartialEq, Eq)]
pub struct Release {
    pub key: String,
    pub date: Option<String>,
    pub sections: Vec<Section>,
}

/// The releases of a changelog, in the order they are written.
#[derive(Clone, Debug, PartialEq, Eq)]
pub struct Changelog {
    pub releases: Vec<Release>,
}

/// Identifier, author name and message.
pub type CommitView = (Seq<char>, Seq<char>, Seq<char>);

/// Section key and entries.
pub type SectionView = (Seq<char>, Seq<Seq<char>>);

/// Release key, date and sections.
pub type ReleaseView = (Seq<char>, Option<Seq<char>>, Seq<SectionView>);

impl View for Commit {
    type V = CommitView;

    open spec fn view(&self) -> CommitView {
        (self.id@, self.author@, self.message@)
    }
}

impl View for Section {
    type V = SectionView;

    open spec fn view(&self) -> SectionView {
        (self.key@, self.entries@.map_values(|e: String| e@))
    }
}

impl View for Release {
    type V = ReleaseView;

    open spec fn view(&self) -> ReleaseView {
        (self.key@, opt_text(self.date), sections_view(self.sections@))
    }
}

impl View for Changelog {
    type V = Seq<ReleaseView>;

    open spec fn view(&self) -> Seq<ReleaseView> {
        self.releases@.map_values(|r: Release| r@)
    }
}

pub open spec fn commits_view(cs: Seq<Commit>) -> Seq<CommitView> {
    cs.map_values(|c: Commit| c@)
}

pub open spec fn sections_view(ss: Seq<Section>) -> Seq<SectionView> {
    ss.map_values(|s: Section| s@)
}

/// The section a commit message goes to: its first word, such as `feat:`.
pub open spec fn section_key(message: Seq<char>) -> Seq<char> {
    first_word(message)
}

/// The Markdown bullet of a commit:
/// ` - [{first 10 characters of id}]({url prefix}{id}) ({author}) {message}`
/// and a line break, with each line break of the message followed by a tab.
pub open spec fn entry_text(url_prefix: Seq<char>, c: CommitView) -> Seq<char> {
    seq![' ', '-', ' ', '['] + prefix_of(c.0, 10) + seq![']', '('] + url_prefix + c.0 + seq![
        ')',
        ' ',
        '(',
    ] + c.1 + seq![')', ' '] + indent_lines(c.2) + seq!['\n']
}

/// Index of the last section with key `key`, or -1 when there is none.
pub open spec fn section_position(ss: Seq<SectionView>, key: Seq<char>) -> int
    decreases ss.len(),
{
    if ss.len() == 0 {
        -1
    } else if ss.last().0 == key {
        ss.len() - 1
    } else {
        section_position(ss.drop_last(), key)
    }
}

/// Adds an entry to the section `key`, which is created after the others
/// when it does not exist yet.
pub open spec fn add_entry(ss: Seq<SectionView>, key: Seq<char>, entry: Seq<char>) -> Seq<
    SectionView,
> {
    let p = section_position(ss, key);
    if p < 0 {
        ss.push((key, seq![entry]))
    } else {
        ss.update(p, (key, ss[p].1.push(entry)))
    }
}

/// The sections of a list of commits: one entry per commit, in order,
/// under the section of its message.
pub open spec fn group_commits(url_prefix: Seq<char>, cs: Seq<CommitView>) -> Seq<SectionView>
    decreases cs.len(),
{
    if cs.len() == 0 {
        Seq::empty()
    } else {
        add_entry(
            group_commits(url_prefix, cs.drop_last()),
            section_key(cs.last().2),
            entry_text(url_prefix, cs.last()),
        )
    }
}

proof fn lemma_section_position(ss: Seq<SectionView>, key: Seq<char>, p: int)
    requires
        -1 <= p < ss.len(),
        p >= 0 ==> ss[p].0 == key,
        forall|k: int| p < k < ss.len() ==> (#[trigger] ss[k]).0 != key,
    ensures
        section_position(ss, key) == p,
    decreases ss.len(),
{
    if ss.len() > 0 && p < ss.len() - 1 {
        assert(ss[ss.len() - 1].0 != key);
        lemma_section_position(ss.drop_last(), key, p);
    }
}

/// The bullet of one commit (see `entry_text`).
pub fn format_entry(url_prefix: &str, c: &Commit) -> (r: String)
    ensures
        r@ == entry_text(url_prefix@, c@),
{
    let mut r = String::new();
    r.push(' ');
    r.push('-');
    r.push(' ');
    r.push('[');
    push_prefix(&mut r, c.id.as_str(), 10);
    r.push(']');
    r.push('(');
    r.append(url_prefix);
    r.append(c.id.as_str());
    r.push(')');
    r.push(' ');
    r.push('(');
    r.append(c.author.as_str());
    r.push(')');
    r.push(' ');
    push_indented(&mut r, c.message.as_str());
    r.push('\n');
    assert(r@ =~= entry_text(url_prefix@, c@));
    r
}

/// Adds `entry` to the section `key` (see `add_entry`).
pub fn add_section_entry(sections: &mut Vec<Section>, key: String, entry: String)
    ensures
        sections_view(final(sections)@) == add_entry(sections_view(old(sections)@), key@, entry@),
{
    let ghost ss = sections_view(sections@);
    let mut j: usize = sections.len();
    while j > 0 && sections[j - 1].key != key
        invariant
            0 <= j <= sections.len(),
            ss == sections_view(sections@),
            sections@ == old(sections)@,
            forall|k: int| j <= k < ss.len() ==> (#[trigger] ss[k]).0 != key@,
        decreases j,
    {
        j = j - 1;
    }
    if j == 0 {
        proof {
            lemma_section_position(ss, key@, -1);
        }
        let mut entries: Vec<String> = Vec::new();
        entries.push(entry);
        assert(entries@.map_values(|e: String| e@) =~= seq![entry@]);
        let ghost new_section = (key@, seq![entry@]);
        sections.push(Section { key, entries });
        assert(sections@.last()@ == new_section);
        assert(sections_view(sections@) =~= add_entry(ss, key@, entry@));
    } else {
        proof {
            assert(ss[j - 1].0 == key@);
            lemma_section_position(ss, key@, j - 1);
        }
        let mut s = sections.remove(j - 1);
        s.entries.push(entry);
        assert(s.entries@.map_values(|e: String| e@) =~= ss[j - 1].1.push(entry@));
        sections.insert(j - 1, s);
        assert(sections_view(sections@) =~= add_entry(ss, key@, entry@));
    }
}

/// Groups commits into sections (see `group_commits`).
pub fn group_commit_entries(url_prefix: &str, commits: &Vec<Commit>) -> (r: Vec<Section>)
    ensures
        sections_view(r@) == group_commits(url_prefix@, commits_view(commits@)),
{
    let mut r: Vec<Section> = Vec::new();
    let mut i: usize = 0;
    assert(commits_view(commits@.take(0)) =~= Seq::<CommitView>::empty());
    while i < commits.len()
        invariant
            0 <= i <= commits.len(),
            sections_view(r@) == group_commits(url_prefix@, commits_view(commits@.take(i as int))),
        decreases commits.len() - i,
    {
        let c = &commits[i];
        let key = first_word_of(c.message.as_str());
        let entry = format_entry(url_prefix, c);
        add_section_entry(&mut r, key, entry);
        assert(commits_view(commits@.take(i + 1)).drop_last() =~= commits_view(
            commits@.take(i as int),
        ));
        assert(commits_view(commits@.take(i + 1)).last() == commits@[i as int]@);
        i = i + 1;
    }
    assert(commits@.take(i as int) =~= commits@);
    r
}

/// The version a tag name reads as.
pub open spec fn tag_version(t: Tag) -> Version {
    parse_version(t.name@)
}

/// Whether tag `a` ranks below tag `b` by the versions their names read as.
pub open spec fn ranks_below(a: Tag, b: Tag) -> bool {
    compare_versions(tag_version(a), tag_version(b)) == Ordering::Less
}

/// Inserts `x` into `s` after every tag that does not rank below it.
pub open spec fn insert_by_version(x: Tag, s: Seq<Tag>) -> Seq<Tag>
    decreases s.len(),
{
    if s.len() == 0 || !ranks_below(s.last(), x) {
        s.push(x)
    } else {
        insert_by_version(x, s.drop_last()).push(s.last())
    }
}

/// Release order: tags from the highest version to the lowest, tags of
/// equal rank in the order they were given.
pub open spec fn release_order(s: Seq<Tag>) -> Seq<Tag>
    decreases s.len(),
{
    if s.len() == 0 {
        Seq::empty()
    } else {
        insert_by_version(s.last(), release_order(s.drop_last()))
    }
}

proof fn lemma_insert_at(x: Tag, s: Seq<Tag>, j: int)
    requires
        0 <= j <= s.len(),
        forall|m: int| j <= m < s.len() ==> ranks_below(#[trigger] s[m], x),
        j == 0 || !ranks_below(s[j - 1], x),
    ensures
        insert_by_version(x, s) == s.insert(j, x),
    decreases s.len(),
{
    if j == s.len() {
        assert(s.push(x) =~= s.insert(j, x));
    } else {
        assert(ranks_below(s[s.len() - 1], x));
        lemma_insert_at(x, s.drop_last(), j);
        assert(s.drop_last().insert(j, x).push(s.last()) =~= s.insert(j, x));
    }
}

/// Whether no tag of `s` ranks below a tag after it.
pub open spec fn is_release_ordered(s: Seq<Tag>) -> bool {
    forall|i: int, j: int| 0 <= i < j < s.len() ==> !ranks_below(#[trigger] s[i], #[trigger] s[j])
}

proof fn lemma_not_below_transitive(a: Tag, b: Tag, c: Tag)
    requires
        !ranks_below(a, b),
        !ranks_below(b, c),
    ensures
        !ranks_below(a, c),
{
    let (va, vb, vc) = (tag_version(a), tag_version(b), tag_version(c));
    lemma_compare_total_order(va, vb);
    lemma_compare_total_order(vb, vc);
    lemma_compare_total_order(va, vc);
    lemma_compare_total_order(vc, va);
    if compare_versions(vb, va) == Ordering::Less && compare_versions(vc, vb) == Ordering::Less {
        lemma_compare_transitive(vc, vb, va);
    }
}

proof fn lemma_insert_ordered(x: Tag, t: Seq<Tag>)
    requires
        is_release_ordered(t),
    ensures
        is_release_ordered(insert_by_version(x, t)),
        insert_by_version(x, t).to_multiset() == t.to_multiset().insert(x),
    decreases t.len(),
{
    broadcast use vstd::seq_lib::group_to_multiset_ensures;

    if t.len() == 0 || !ranks_below(t.last(), x) {
        let u = t.push(x);
        assert forall|i: int, j: int| 0 <= i < j < u.len() implies !ranks_below(
            #[trigger] u[i],
            #[trigger] u[j],
        ) by {
            if j == t.len() {
                if i < t.len() - 1 {
                    lemma_not_below_transitive(t[i], t.last(), x);
                }
            }
        }
    } else {
        let t0 = t.drop_last();
        assert(is_release_ordered(t0)) by {
            assert forall|i: int, j: int| 0 <= i < j < t0.len() implies !ranks_below(
                #[trigger] t0[i],
                #[trigger] t0[j],
            ) by {
                assert(t0[i] == t[i] && t0[j] == t[j]);
            }
        }
        lemma_insert_ordered(x, t0);
        let u = insert_by_version(x, t0);
        let last = t.last();
        assert forall|k: int| 0 <= k < u.len() implies !ranks_below(#[trigger] u[k], last) by {
            assert(u.to_multiset().count(u[k]) > 0);
            if u[k] == x {
                lemma_compare_total_order(tag_version(last), tag_version(x));
            } else {
                assert(t0.contains(u[k]));
                let m = choose|m: int| 0 <= m < t0.len() && t0[m] == u[k];
                assert(t[m] == u[k]);
            }
        }
        let w = u.push(last);
        assert forall|i: int, j: int| 0 <= i < j < w.len() implies !ranks_below(
            #[trigger] w[i],
            #[trigger] w[j],
        ) by {
            if j == u.len() {
                assert(!ranks_below(u[i], last));
            } else {
                assert(w[i] == u[i] && w[j] == u[j]);
            }
        }
        assert(t0.push(last) == t);
        assert(t.to_multiset() =~= t0.to_multiset().insert(last));
        assert(w.to_multiset() =~= t.to_multiset().insert(x));
    }
}

/// Release order puts no tag below one that comes after it, and holds
/// exactly the tags it was given.
pub proof fn lemma_release_order(s: Seq<Tag>)
    ensures
        is_release_ordered(release_order(s)),
        release_order(s).to_multiset() == s.to_multiset(),
    decreases s.len(),
{
    broadcast use vstd::seq_lib::group_to_multiset_ensures;

    if s.len() > 0 {
        lemma_release_order(s.drop_last());
        lemma_insert_ordered(s.last(), release_order(s.drop_last()));
        assert(s.drop_last().push(s.last()) == s);
        assert(s.to_multiset() =~= s.drop_last().to_multiset().insert(s.last()));
    }
}

/// Whether no two tags of `s` read as the same version.
pub open spec fn distinct_versions(s: Seq<Tag>) -> bool {
    forall|i: int, j: int|
        0 <= i < s.len() && 0 <= j < s.len() && i != j ==> tag_version(#[trigger] s[i])
            != tag_version(#[trigger] s[j])
}

/// Whether every tag of `s` ranks strictly below each tag before it.
pub open spec fn strictly_descending(s: Seq<Tag>) -> bool {
    forall|i: int, j: int| 0 <= i < j < s.len() ==> ranks_below(#[trigger] s[j], #[trigger] s[i])
}

proof fn lemma_member_position(s: Seq<Tag>, e: Tag) -> (m: int)
    requires
        s.to_multiset().count(e) > 0,
    ensures
        0 <= m < s.len(),
        s[m] == e,
{
    broadcast use vstd::seq_lib::group_to_multiset_ensures;

    assert(s.contains(e));
    choose|m: int| 0 <= m < s.len() && s[m] == e
}

proof fn lemma_insert_distinct(x: Tag, t: Seq<Tag>)
    requires
        is_release_ordered(t),
        distinct_versions(t),
        forall|k: int| 0 <= k < t.len() ==> tag_version(#[trigger] t[k]) != tag_version(x),
    ensures
        distinct_versions(insert_by_version(x, t)),
    decreases t.len(),
{
    broadcast use vstd::seq_lib::group_to_multiset_ensures;

    if t.len() == 0 || !ranks_below(t.last(), x) {
        let u = t.push(x);
        assert forall|i: int, j: int|
            0 <= i < u.len() && 0 <= j < u.len() && i != j implies tag_version(#[trigger] u[i])
            != tag_version(#[trigger] u[j]) by {
            if i < t.len() && j < t.len() {
                assert(u[i] == t[i] && u[j] == t[j]);
            }
        }
    } else {
        let t0 = t.drop_last();
        assert(is_release_ordered(t0)) by {
            assert forall|i: int, j: int| 0 <= i < j < t0.len() implies !ranks_below(
                #[trigger] t0[i],
                #[trigger] t0[j],
            ) by {
                assert(t0[i] == t[i] && t0[j] == t[j]);
            }
        }
        assert(distinct_versions(t0)) by {
            assert forall|i: int, j: int|
                0 <= i < t0.len() && 0 <= j < t0.len() && i != j implies tag_version(
                #[trigger] t0[i],
            ) != tag_version(#[trigger] t0[j]) by {
                assert(t0[i] == t[i] && t0[j] == t[j]);
            }
        }
        assert forall|k: int| 0 <= k < t0.len() implies tag_version(#[trigger] t0[k]) != tag_version(
            x,
        ) by {
            assert(t0[k] == t[k]);
        }
        lemma_insert_distinct(x, t0);
        lemma_insert_ordered(x, t0);
        let u = insert_by_version(x, t0);
        let last = t.last();
        assert forall|k: int| 0 <= k < u.len() implies tag_version(#[trigger] u[k]) != tag_version(
            last,
        ) by {
            assert(u.to_multiset().count(u[k]) > 0);
            if u[k] != x {
                let m = lemma_member_position(t0, u[k]);
                assert(t[m] == u[k]);
            }
        }
        let w = u.push(last);
        assert forall|i: int, j: int|
            0 <= i < w.len() && 0 <= j < w.len() && i != j implies tag_version(#[trigger] w[i])
            != tag_version(#[trigger] w[j]) by {
            if i < u.len() && j < u.len() {
                assert(w[i] == u[i] && w[j] == u[j]);
            } else if i < u.len() {
                assert(w[i] == u[i]);
            } else {
                assert(w[j] == u[j]);
            }
        }
    }
}

proof fn lemma_release_order_distinct(s: Seq<Tag>)
    requires
        distinct_versions(s),
    ensures
        distinct_versions(release_order(s)),
    decreases s.len(),
{
    broadcast use vstd::seq_lib::group_to_multiset_ensures;

    if s.len() > 0 {
        let s0 = s.drop_last();
        assert(distinct_versions(s0)) by {
            assert forall|i: int, j: int|
                0 <= i < s0.len() && 0 <= j < s0.len() && i != j implies tag_version(
                #[trigger] s0[i],
            ) != tag_version(#[trigger] s0[j]) by {
                assert(s0[i] == s[i] && s0[j] == s[j]);
            }
        }
        lemma_release_order_distinct(s0);
        lemma_release_order(s0);
        let t = release_order(s0);
        assert forall|k: int| 0 <= k < t.len() implies tag_version(#[trigger] t[k]) != tag_version(
            s.last(),
        ) by {
            assert(t.to_multiset().count(t[k]) > 0);
            let m = lemma_member_position(s0, t[k]);
            assert(s[m] == t[k]);
        }
        lemma_insert_distinct(s.last(), t);
    }
}

/// When the tags read as pairwise distinct versions, release order ranks
/// every tag strictly below each tag before it.
pub proof fn lemma_release_order_strict(s: Seq<Tag>)
    requires
        distinct_versions(s),
    ensures
        strictly_descending(release_order(s)),
{
    lemma_release_order(s);
    lemma_release_order_distinct(s);
    let r = release_order(s);
    assert forall|i: int, j: int| 0 <= i < j < r.len() implies ranks_below(
        #[trigger] r[j],
        #[trigger] r[i],
    ) by {
        lemma_compare_total_order(tag_version(r[i]), tag_version(r[j]));
    }
}

proof fn lemma_descending_unique(a: Seq<Tag>, b: Seq<Tag>)
    requires
        strictly_descending(a),
        strictly_descending(b),
        a.to_multiset() == b.to_multiset(),
    ensures
        a == b,
    decreases a.len(),
{
    broadcast use vstd::seq_lib::group_to_multiset_ensures;

    vstd::seq_lib::to_multiset_len(a);
    vstd::seq_lib::to_multiset_len(b);
    assert(a.len() == b.len());
    if a.len() > 0 {
        let (x, y) = (a[0], b[0]);
        let p = lemma_member_position(b, x);
        let q = lemma_member_position(a, y);
        if x != y {
            assert(p > 0 && q > 0);
            assert(ranks_below(x, y));
            assert(ranks_below(y, x));
            lemma_compare_total_order(tag_version(x), tag_version(y));
        }
        assert(a.remove(0) =~= a.drop_first());
        assert(b.remove(0) =~= b.drop_first());
        let (a0, b0) = (a.drop_first(), b.drop_first());
        assert(a.remove(0).to_multiset() =~= a.to_multiset().remove(a[0]));
        assert(b.remove(0).to_multiset() =~= b.to_multiset().remove(b[0]));
        assert(a0.to_multiset() == b0.to_multiset());
        assert(strictly_descending(a0)) by {
            assert forall|i: int, j: int| 0 <= i < j < a0.len() implies ranks_below(
                #[trigger] a0[j],
                #[trigger] a0[i],
            ) by {
                assert(a0[i] == a[i + 1] && a0[j] == a[j + 1]);
            }
        }
        assert(strictly_descending(b0)) by {
            assert forall|i: int, j: int| 0 <= i < j < b0.len() implies ranks_below(
                #[trigger] b0[j],
                #[trigger] b0[i],
            ) by {
                assert(b0[i] == b[i + 1] && b0[j] == b[j + 1]);
            }
        }
        lemma_descending_unique(a0, b0);
        assert forall|k: int| 0 <= k < a.len() implies a[k] == b[k] by {
            if k > 0 {
                assert(a[k] == a0[k - 1] && b[k] == b0[k - 1]);
            }
        }
        assert(a =~= b);
    }
}

/// When the tags read as pairwise distinct versions, release order does
/// not depend on the order in which the tags are listed, nor on anything
/// but the versions their names read as (their dates play no part).
pub proof fn lemma_release_order_unique(s1: Seq<Tag>, s2: Seq<Tag>)
    requires
        distinct_versions(s1),
        distinct_versions(s2),
        s1.to_multiset() == s2.to_multiset(),
    ensures
        release_order(s1) == release_order(s2),
{
    broadcast use vstd::seq_lib::group_to_multiset_ensures;

    lemma_release_order(s1);
    lemma_release_order(s2);
    lemma_release_order_strict(s1);
    let (r1, r2) = (release_order(s1), release_order(s2));
    lemma_release_order_strict(s2);
    lemma_descending_unique(r1, r2);
}

fn is_less(o: Ordering) -> (r: bool)
    ensures
        r == (o == Ordering::Less),
{
    match o {
        Ordering::Less => true,
        _ => false,
    }
}

/// Orders tags for the changelog (see `release_order`): from the highest
/// version that their names read as to the lowest.
pub fn sort_tags(tags: Vec<Tag>) -> (r: Vec<Tag>)
    ensures
        r@ == release_order(tags@),
        is_release_ordered(r@),
        r@.to_multiset() == tags@.to_multiset(),
{
    proof {
        lemma_release_order(tags@);
    }
    let ghost orig = tags@;
    let mut rest = tags;
    let mut r: Vec<Tag> = Vec::new();
    let mut keys: Vec<Version> = Vec::new();
    let ghost mut k: int = 0;
    assert(orig.take(0) =~= Seq::<Tag>::empty());
    while rest.len() > 0
        invariant
            0 <= k <= orig.len(),
            rest@ == orig.skip(k),
            r@ == release_order(orig.take(k)),
            keys.len() == r.len(),
            forall|m: int| 0 <= m < r.len() ==> (#[trigger] keys@[m]) == tag_version(r@[m]),
        decreases rest.len(),
    {
        let t = rest.remove(0);
        let key = Version::from_str(t.name.as_str());
        let mut j: usize = r.len();
        while j > 0 && is_less(keys[j - 1].compare(&key))
            invariant
                0 <= j <= r.len(),
                keys.len() == r.len(),
                key == tag_version(t),
                forall|m: int| 0 <= m < r.len() ==> (#[trigger] keys@[m]) == tag_version(r@[m]),
                forall|m: int| j <= m < r.len() ==> ranks_below(#[trigger] r@[m], t),
            decreases j,
        {
            j = j - 1;
        }
        proof {
            lemma_insert_at(t, r@, j as int);
            assert(orig[k] == t);
            assert(orig.take(k + 1).drop_last() =~= orig.take(k));
            assert(orig.skip(k).drop_first() =~= orig.skip(k + 1));
            k = k + 1;
        }
        let ghost before_r = r@;
        let ghost before_keys = keys@;
        r.insert(j, t);
        keys.insert(j, key);
        assert forall|m: int| 0 <= m < r.len() implies (#[trigger] keys@[m]) == tag_version(r@[m]) by {
            if m > j {
                assert(keys@[m] == before_keys[m - 1]);
                assert(r@[m] == before_r[m - 1]);
            } else if m < j {
                assert(keys@[m] == before_keys[m]);
                assert(r@[m] == before_r[m]);
            }
        }
    }
    assert(orig.take(k) =~= orig);
    r
}

/// The range of each tag in release order: from the tag's commit, down to
/// (not including) the history of the next lower tag; the lowest tag takes
/// its whole history.
pub fn tag_ranges(tags: &Vec<Tag>) -> (r: Vec<CommitRange>)
    ensures
        r.len() == tags.len(),
        forall|i: int|
            0 <= i < tags.len() ==> (#[trigger] r@[i]).head@ == tags@[i].commit_id@ && opt_text(
                r@[i].base,
            ) == if i + 1 < tags.len() {
                Some(tags@[i + 1].commit_id@)
            } else {
                None::<Seq<char>>
            },
{
    let mut r: Vec<CommitRange> = Vec::new();
    let mut i: usize = 0;
    while i < tags.len()
        invariant
            0 <= i <= tags.len(),
            r.len() == i,
            forall|m: int|
                0 <= m < i ==> (#[trigger] r@[m]).head@ == tags@[m].commit_id@ && opt_text(
                    r@[m].base,
                ) == if m + 1 < tags.len() {
                    Some(tags@[m + 1].commit_id@)
                } else {
                    None::<Seq<char>>
                },
        decreases tags.len() - i,
    {
        let base = if i + 1 < tags.len() {
            Some(tags[i + 1].commit_id.clone())
        } else {
            None
        };
        r.push(CommitRange { head: tags[i].commit_id.clone(), base });
        i = i + 1;
    }
    r
}

/// The range not yet released: from `head` down to (not including) the
/// history of the highest tag, or all of the history of `head` when there
/// is no tag.
pub fn unreleased_range(tags: &Vec<Tag>, head: &str) -> (r: CommitRange)
    ensures
        r.head@ == head@,
        opt_text(r.base) == if tags.len() > 0 {
            Some(tags@[0].commit_id@)
        } else {
            None::<Seq<char>>
        },
{
    let base = if tags.len() > 0 {
        Some(tags[0].commit_id.clone())
    } else {
        None
    };
    CommitRange { head: String::from_str(head), base }
}

/// The release of a tag: named after it, dated by its commit.
pub open spec fn tag_release(url_prefix: Seq<char>, t: TagCommits) -> ReleaseView {
    (t.tag.name@, utc_date_of(t.tag.timestamp as int), group_commits(url_prefix, commits_view(t.commits@)))
}

/// The releases of the changelog: first, when it has commits, the release
/// in progress, named after `version` and dated `now`; then one release per
/// tag, in the order given.
pub open spec fn changelog_releases(
    version: Version,
    now: int,
    url_prefix: Seq<char>,
    tags: Seq<TagCommits>,
    unreleased: Seq<CommitView>,
) -> Seq<ReleaseView> {
    let current = if unreleased.len() > 0 {
        seq![(format_version(version), utc_date_of(now), group_commits(url_prefix, unreleased))]
    } else {
        Seq::empty()
    };
    current + tags.map_values(|t: TagCommits| tag_release(url_prefix, t))
}

/// Assembles the changelog (see `changelog_releases`). `tags` are expected
/// in release order, each with the commits of its range, and `unreleased`
/// holds the commits after the highest tag; `now` is the time of the run.
pub fn build_changelog(
    version: &Version,
    now: i64,
    url_prefix: &str,
    tags: &Vec<TagCommits>,
    unreleased: &Vec<Commit>,
) -> (r: Changelog)
    ensures
        r@ == changelog_releases(*version, now as int, url_prefix@, tags@, commits_view(unreleased@)),
{
    let mut releases: Vec<Release> = Vec::new();
    if unreleased.len() > 0 {
        let sections = group_commit_entries(url_prefix, unreleased);
        releases.push(Release { key: version.formatted(), date: utc_date(now), sections });
    }
    let ghost start = releases@.map_values(|r: Release| r@);
    let mut i: usize = 0;
    while i < tags.len()
        invariant
            0 <= i <= tags.len(),
            releases@.map_values(|r: Release| r@) == start + tags@.take(i as int).map_values(
                |t: TagCommits| tag_release(url_prefix@, t),
            ),
        decreases tags.len() - i,
    {
        let t = &tags[i];
        let sections = group_commit_entries(url_prefix, &t.commits);
        let rel = Release { key: t.tag.name.clone(), date: utc_date(t.tag.timestamp), sections };
        assert(rel@ == tag_release(url_prefix@, tags@[i as int]));
        let ghost before = releases@;
        releases.push(rel);
        assert(releases@.map_values(|r: Release| r@) =~= before.map_values(|r: Release| r@).push(
            rel@,
        ));
        assert(tags@.take(i + 1).map_values(|t: TagCommits| tag_release(url_prefix@, t))
            =~= tags@.take(i as int).map_values(|t: TagCommits| tag_release(url_prefix@, t)).push(
            tag_release(url_prefix@, tags@[i as int]),
        ));
        assert(releases@.map_values(|r: Release| r@) =~= start + tags@.take(i + 1).map_values(
            |t: TagCommits| tag_release(url_prefix@, t),
        ));
        i = i + 1;
    }
    assert(tags@.take(i as int) =~= tags@);
    let r = Changelog { releases };
    assert(r@ =~= changelog_releases(*version, now as int, url_prefix@, tags@, commits_view(unreleased@)));
    r
}

/// The parts joined in order.
pub open spec fn concat(parts: Seq<Seq<char>>) -> Seq<char>
    decreases parts.len(),
{
    if parts.len() == 0 {
        Seq::empty()
    } else {
        concat(parts.drop_last()) + parts.last()
    }
}

/// `## {key} - {date}` and a line break; without a date, `## {key}`.
pub open spec fn release_header(r: ReleaseView) -> Seq<char> {
    let dated = match r.1 {
        Some(d) => seq![' ', '-', ' '] + d,
        None => Seq::empty(),
    };
    seq!['#', '#', ' '] + r.0 + dated + seq!['\n']
}

/// The section key on a line of its own, then its entries as they are.
pub open spec fn section_text(s: SectionView) -> Seq<char> {
    s.0 + seq!['\n'] + concat(s.1)
}

/// The header of a release, then its sections in order.
pub open spec fn release_text(r: ReleaseView) -> Seq<char> {
    release_header(r) + concat(r.2.map_values(|s: SectionView| section_text(s)))
}

/// The Markdown document of a changelog: its releases in order.
pub open spec fn changelog_text(rs: Seq<ReleaseView>) -> Seq<char> {
    concat(rs.map_values(|r: ReleaseView| release_text(r)))
}

fn push_section(out: &mut String, s: &Section)
    ensures
        final(out)@ == old(out)@ + section_text(s@),
{
    out.append(s.key.as_str());
    out.push('\n');
    let ghost start = out@;
    let ghost es = s@.1;
    let mut k: usize = 0;
    assert(es.take(0) =~= Seq::<Seq<char>>::empty());
    while k < s.entries.len()
        invariant
            0 <= k <= s.entries.len(),
            es == s@.1,
            es.len() == s.entries.len(),
            out@ == start + concat(es.take(k as int)),
        decreases s.entries.len() - k,
    {
        out.append(s.entries[k].as_str());
        assert(es[k as int] == s.entries@[k as int]@);
        proof {
            lemma_concat_step(es, k as int);
        }
        k = k + 1;
    }
    assert(es.take(k as int) =~= es);
    assert(out@ =~= old(out)@ + section_text(s@));
}

proof fn lemma_concat_step(parts: Seq<Seq<char>>, k: int)
    requires
        0 <= k < parts.len(),
    ensures
        concat(parts.take(k + 1)) == concat(parts.take(k)) + parts[k],
{
    assert(parts.take(k + 1).drop_last() =~= parts.take(k));
}

fn push_release(out: &mut String, rel: &Release)
    ensures
        final(out)@ == old(out)@ + release_text(rel@),
{
    out.push('#');
    out.push('#');
    out.push(' ');
    out.append(rel.key.as_str());
    match &rel.date {
        Some(d) => {
            out.push(' ');
            out.push('-');
            out.push(' ');
            out.append(d.as_str());
        },
        None => {},
    }
    out.push('\n');
    assert(out@ =~= old(out)@ + release_header(rel@));
    let ghost start = out@;
    let ghost texts = rel@.2.map_values(|s: SectionView| section_text(s));
    let mut j: usize = 0;
    assert(texts.take(0) =~= Seq::<Seq<char>>::empty());
    while j < rel.sections.len()
        invariant
            0 <= j <= rel.sections.len(),
            texts == rel@.2.map_values(|s: SectionView| section_text(s)),
            texts.len() == rel.sections.len(),
            out@ == start + concat(texts.take(j as int)),
        decreases rel.sections.len() - j,
    {
        push_section(out, &rel.sections[j]);
        assert(texts[j as int] == section_text(rel.sections@[j as int]@));
        proof {
            lemma_concat_step(texts, j as int);
        }
        j = j + 1;
    }
    assert(texts.take(j as int) =~= texts);
    assert(out@ =~= old(out)@ + release_text(rel@));
}

/// The Markdown text of the changelog (see `changelog_text`).
pub fn render_changelog(c: &Changelog) -> (r: String)
    ensures
        r@ == changelog_text(c@),
{
    let mut out = String::new();
    let ghost texts = c@.map_values(|r: ReleaseView| release_text(r));
    let mut i: usize = 0;
    assert(texts.take(0) =~= Seq::<Seq<char>>::empty());
    assert(out@ =~= concat(texts.take(0)));
    while i < c.releases.len()
        invariant
            0 <= i <= c.releases.len(),
            texts == c@.map_values(|r: ReleaseView| release_text(r)),
            texts.len() == c.releases.len(),
            out@ == concat(texts.take(i as int)),
        decreases c.releases.len() - i,
    {
        push_release(&mut out, &c.releases[i]);
        assert(texts[i as int] == release_text(c.releases@[i as int]@));
        proof {
            lemma_concat_step(texts, i as int);
        }
        i = i + 1;
    }
    assert(texts.take(i as int) =~= texts);
    out
}

/// Generating the changelog twice from the same repository state (the
/// same tags, each with the same commits in its range, and the same
/// commits after the highest tag), for the same version at the same time,
/// gives the same text, byte for byte.
pub proof fn lemma_generation_repeatable(
    version: Version,
    now: int,
    url_prefix: Seq<char>,
    tags1: Seq<TagCommits>,
    tags2: Seq<TagCommits>,
    unreleased1: Seq<Commit>,
    unreleased2: Seq<Commit>,
)
    requires
        tags1.len() == tags2.len(),
        forall|i: int|
            0 <= i < tags1.len() ==> (#[trigger] tags1[i]).tag.name@ == tags2[i].tag.name@
                && tags1[i].tag.timestamp == tags2[i].tag.timestamp && commits_view(
                tags1[i].commits@,
            ) == commits_view(tags2[i].commits@),
        commits_view(unreleased1) == commits_view(unreleased2),
    ensures
        changelog_text(
            changelog_releases(version, now, url_prefix, tags1, commits_view(unreleased1)),
        ) == changelog_text(
            changelog_releases(version, now, url_prefix, tags2, commits_view(unreleased2)),
        ),
{
    assert(tags1.map_values(|t: TagCommits| tag_release(url_prefix, t)) =~= tags2.map_values(
        |t: TagCommits| tag_release(url_prefix, t),
    ));
}

} // verus!

//! The entries of a directory page: which ones are shown, where they link,
//! and their order.

use vstd::prelude::*;
use crate::page::{breadcrumbs_of, crumbs_view, file_size_text, format_file_size, generate_breadcrumbs, workspace_url, BreadcrumbItem};
use crate::path::{is_hidden_name, is_markdown, is_markdown_path, is_hidden, segments, slashed, split_segments, trim_leading_slashes, trim_slashes_start, views};
use crate::render::dash;
use crate::text::{push_char, push_text, view_prefix_string};

verus! {

/// The lower-case form that the standard library gives a string.
pub uninterp spec fn lower_of(s: Seq<char>) -> Seq<char>;

/// Relies on `str::to_lowercase`: the result depends on the characters alone.
#[verifier::external_body]
fn lowercase(s: &str) -> (r: String)
    ensures
        r@ == lower_of(s@),
{
    s.to_lowercase()
}

/// What the file system says of one directory entry.
pub struct EntryFacts {
    pub name: String,
    pub is_dir: bool,
    /// For a directory: whether some non-hidden file below it is markdown.
    pub has_markdown: bool,
    pub size: u64,
    /// The modification time, formatted, when known.
    pub modified: Option<String>,
}

/// One line of a directory page.
#[derive(Clone, Debug)]
pub struct FileEntry {
    pub name: String,
    pub path: String,
    pub is_dir: bool,
    pub size: String,
    pub modified: String,
}

pub struct EntryView {
    pub name: Seq<char>,
    pub path: Seq<char>,
    pub is_dir: bool,
    pub size: Seq<char>,
    pub modified: Seq<char>,
}

impl View for FileEntry {
    type V = EntryView;

    open spec fn view(&self) -> EntryView {
        EntryView {
            name: self.name@,
            path: self.path@,
            is_dir: self.is_dir,
            size: self.size@,
            modified: self.modified@,
        }
    }
}

pub open spec fn entries_view(v: Seq<FileEntry>) -> Seq<EntryView> {
    v.map_values(|e: FileEntry| e@)
}

/// Hidden entries are never shown; a directory is shown when it holds
/// markdown, a file when it is markdown.
pub open spec fn is_shown(f: EntryFacts) -> bool {
    !is_hidden_name(f.name@) && if f.is_dir {
        f.has_markdown
    } else {
        is_markdown(f.name@)
    }
}

/// Where an entry named `name` of the directory at `url_path` links.
pub open spec fn entry_url(base: Seq<char>, url_path: Seq<char>, name: Seq<char>) -> Seq<char> {
    if url_path.len() == 0 {
        base + seq!['/'] + name
    } else {
        base + seq!['/'] + trim_leading_slashes(url_path) + seq!['/'] + name
    }
}

pub open spec fn entry_of(base: Seq<char>, url_path: Seq<char>, f: EntryFacts) -> EntryView {
    EntryView {
        name: f.name@,
        path: entry_url(base, url_path, f.name@),
        is_dir: f.is_dir,
        size: if f.is_dir {
            dash()
        } else {
            file_size_text(f.size as nat)
        },
        modified: match f.modified {
            Some(m) => m@,
            None => dash(),
        },
    }
}

/// The shown entries, in the order the directory gave them.
pub open spec fn shown_entries(base: Seq<char>, url_path: Seq<char>, fs: Seq<EntryFacts>) -> Seq<EntryView>
    decreases fs.len(),
{
    if fs.len() == 0 {
        Seq::empty()
    } else {
        let rest = shown_entries(base, url_path, fs.drop_last());
        if is_shown(fs.last()) {
            rest.push(entry_of(base, url_path, fs.last()))
        } else {
            rest
        }
    }
}

/// Strict lexicographic order by code point.
pub open spec fn lex_less(a: Seq<char>, b: Seq<char>) -> bool
    decreases a.len(),
{
    if a.len() == 0 {
        b.len() > 0
    } else if b.len() == 0 {
        false
    } else if a[0] != b[0] {
        (a[0] as u32) < (b[0] as u32)
    } else {
        lex_less(a.drop_first(), b.drop_first())
    }
}

/// Directories come before files; within each, names compare lower-cased.
pub open spec fn goes_before(a: EntryView, b: EntryView) -> bool {
    (a.is_dir && !b.is_dir) || (a.is_dir == b.is_dir && lex_less(lower_of(a.name), lower_of(b.name)))
}

/// `e` placed in `s` before the first element it goes before.
pub open spec fn insert_in_order(s: Seq<EntryView>, e: EntryView) -> Seq<EntryView>
    decreases s.len(),
{
    if s.len() == 0 {
        seq![e]
    } else if goes_before(e, s[0]) {
        seq![e] + s
    } else {
        seq![s[0]] + insert_in_order(s.drop_first(), e)
    }
}

/// The stable sort of `s` by `goes_before`: each element in turn goes after
/// every earlier one that it does not go before.
pub open spec fn sorted_entries(s: Seq<EntryView>) -> Seq<EntryView>
    decreases s.len(),
{
    if s.len() == 0 {
        s
    } else {
        insert_in_order(sorted_entries(s.drop_last()), s.last())
    }
}

/// The link to the parent of the directory at `url_path`.
pub open spec fn parent_url(base: Seq<char>, url_path: Seq<char>) -> Seq<char> {
    let parts = segments(url_path, true);
    if url_path.len() == 0 || parts.len() <= 1 {
        base
    } else {
        base + slashed(parts.take(parts.len() - 1))
    }
}

fn lex_less_exec(a: &str, b: &str) -> (r: bool)
    ensures
        r == lex_less(a@, b@),
{
    let n = a.unicode_len();
    let m = b.unicode_len();
    let mut i: usize = 0;
    assert(a@.skip(0) =~= a@);
    assert(b@.skip(0) =~= b@);
    while i < n && i < m && a.get_char(i) == b.get_char(i)
        invariant
            i <= n,
            i <= m,
            n == a@.len(),
            m == b@.len(),
            lex_less(a@, b@) == lex_less(a@.skip(i as int), b@.skip(i as int)),
        decreases n - i,
    {
        assert(a@.skip(i as int).drop_first() =~= a@.skip(i + 1));
        assert(b@.skip(i as int).drop_first() =~= b@.skip(i + 1));
        i = i + 1;
    }
    if i == n {
        i < m
    } else if i == m {
        false
    } else {
        (a.get_char(i) as u32) < (b.get_char(i) as u32)
    }
}

proof fn lemma_insert_at(s: Seq<EntryView>, e: EntryView, j: int)
    requires
        0 <= j <= s.len(),
        forall|k: int| 0 <= k < j ==> !goes_before(e, #[trigger] s[k]),
        j == s.len() || goes_before(e, s[j]),
    ensures
        insert_in_order(s, e) == s.insert(j, e),
    decreases s.len(),
{
    if s.len() == 0 {
        assert(s.insert(j, e) =~= seq![e]);
    } else if j == 0 {
        assert(s.insert(j, e) =~= seq![e] + s);
    } else {
        let t = s.drop_first();
        assert forall|k: int| 0 <= k < j - 1 implies !goes_before(e, #[trigger] t[k]) by {
            assert(t[k] == s[k + 1]);
        }
        lemma_insert_at(t, e, j - 1);
        assert(s.insert(j, e) =~= seq![s[0]] + t.insert(j - 1, e));
    }
}

fn goes_before_exec(e: &FileEntry, e_key: &String, x: &FileEntry, x_key: &String) -> (r: bool)
    requires
        e_key@ == lower_of(e.name@),
        x_key@ == lower_of(x.name@),
    ensures
        r == goes_before(e@, x@),
{
    (e.is_dir && !x.is_dir) || (e.is_dir == x.is_dir && lex_less_exec(e_key.as_str(), x_key.as_str()))
}

/// Puts `e` into the sorted `out` (with its lower-cased names in `keys`)
/// before the first entry it goes before.
fn insert_sorted(out: &mut Vec<FileEntry>, keys: &mut Vec<String>, e: FileEntry)
    requires
        old(keys)@.len() == old(out)@.len(),
        forall|k: int| 0 <= k < old(out)@.len() ==> #[trigger] old(keys)@[k]@ == lower_of(old(out)@[k].name@),
    ensures
        final(keys)@.len() == final(out)@.len(),
        forall|k: int| 0 <= k < final(out)@.len() ==> #[trigger] final(keys)@[k]@ == lower_of(final(out)@[k].name@),
        entries_view(final(out)@) == insert_in_order(entries_view(old(out)@), e@),
{
    let key = lowercase(e.name.as_str());
    let mut j: usize = 0;
    while j < out.len() && !goes_before_exec(&e, &key, &out[j], &keys[j])
        invariant
            j <= out@.len(),
            out@ == old(out)@,
            keys@ == old(keys)@,
            keys@.len() == out@.len(),
            key@ == lower_of(e.name@),
            forall|k: int| 0 <= k < out@.len() ==> #[trigger] keys@[k]@ == lower_of(out@[k].name@),
            forall|k: int| 0 <= k < j ==> !goes_before(e@, #[trigger] entries_view(out@)[k]),
        decreases out@.len() - j,
    {
        j = j + 1;
    }
    proof {
        lemma_insert_at(entries_view(out@), e@, j as int);
    }
    out.insert(j, e);
    keys.insert(j, key);
    proof {
        assert(entries_view(out@) =~= entries_view(old(out)@).insert(j as int, e@));
        assert forall|k: int| 0 <= k < out@.len() implies #[trigger] keys@[k]@ == lower_of(out@[k].name@) by {
            if k < j {
                assert(out@[k] == old(out)@[k]);
            } else if k > j {
                assert(out@[k] == old(out)@[k - 1]);
                assert(keys@[k] == old(keys)@[k - 1]);
            }
        }
    }
}

/// The line for a shown entry of the directory at `url_path` under `base`.
pub fn listing_entry(base: &str, url_path: &str, f: &EntryFacts) -> (r: Option<FileEntry>)
    ensures
        r.is_some() == is_shown(*f),
        r.is_some() ==> r.unwrap()@ == entry_of(base@, url_path@, *f),
{
    let name = f.name.as_str();
    if is_hidden(name) {
        return None;
    }
    if f.is_dir {
        if !f.has_markdown {
            return None;
        }
    } else if !is_markdown_path(name) {
        return None;
    }
    let mut path = String::from_str(base);
    push_char(&mut path, '/');
    if url_path.unicode_len() > 0 {
        let rest = trim_slashes_start(url_path);
        push_text(&mut path, rest.as_str());
        push_char(&mut path, '/');
    }
    push_text(&mut path, name);
    let d = "-";
    proof {
        reveal_strlit("-");
        assert(d@ =~= dash());
    }
    let size = if f.is_dir {
        String::from_str(d)
    } else {
        format_file_size(f.size)
    };
    let modified = match &f.modified {
        Some(m) => m.clone(),
        None => String::from_str(d),
    };
    let e = FileEntry { name: f.name.clone(), path, is_dir: f.is_dir, size, modified };
    assert(e@.path =~= entry_url(base@, url_path@, f.name@));
    Some(e)
}

/// What a directory's page shows.
pub struct DirectoryPage {
    pub breadcrumbs: Vec<BreadcrumbItem>,
    pub entries: Vec<FileEntry>,
    pub has_parent: bool,
    pub parent_path: String,
    pub workspace_id: String,
    pub workspace_name: String,
}

/// The page of the directory at `url_path` of a workspace, from the facts
/// of its entries in the order the directory gave them.
pub fn directory_page(
    workspace_id: &str,
    workspace_name: &str,
    url_path: &str,
    facts: &Vec<EntryFacts>,
) -> (r: DirectoryPage)
    ensures
        ({
            let base = workspace_url(workspace_id@);
            &&& entries_view(r.entries@) == sorted_entries(shown_entries(base, url_path@, facts@))
            &&& crumbs_view(r.breadcrumbs@) == breadcrumbs_of(workspace_id@, workspace_name@, url_path@)
            &&& r.has_parent == (url_path@.len() > 0)
            &&& r.parent_path@ == parent_url(base, url_path@)
            &&& r.workspace_id@ == workspace_id@
            &&& r.workspace_name@ == workspace_name@
        }),
{
    let ghost base_spec = workspace_url(workspace_id@);
    let mut base = view_prefix_string();
    push_text(&mut base, workspace_id);
    let mut entries: Vec<FileEntry> = Vec::new();
    let mut keys: Vec<String> = Vec::new();
    let mut i: usize = 0;
    while i < facts.len()
        invariant
            i <= facts.len(),
            base@ == base_spec,
            keys@.len() == entries@.len(),
            forall|k: int| 0 <= k < entries@.len() ==> #[trigger] keys@[k]@ == lower_of(entries@[k].name@),
            entries_view(entries@) == sorted_entries(shown_entries(base_spec, url_path@, facts@.take(i as int))),
        decreases facts.len() - i,
    {
        let ghost prefix = facts@.take(i as int);
        let ghost next = facts@.take(i + 1);
        assert(next.drop_last() =~= prefix);
        match listing_entry(base.as_str(), url_path, &facts[i]) {
            Some(e) => {
                let ghost shown = shown_entries(base_spec, url_path@, prefix);
                assert(shown.push(e@).drop_last() =~= shown);
                insert_sorted(&mut entries, &mut keys, e);
            },
            None => {},
        }
        i = i + 1;
    }
    assert(facts@.take(facts.len() as int) =~= facts@);
    let breadcrumbs = generate_breadcrumbs(workspace_id, workspace_name, url_path);
    let has_parent = url_path.unicode_len() > 0;
    let parts = split_segments(url_path, true);
    let mut parent_path = base.clone();
    if has_parent && parts.len() > 1 {
        let mut k: usize = 0;
        while k < parts.len() - 1
            invariant
                parts.len() > 1,
                k <= parts.len() - 1,
                views(parts@) == segments(url_path@, true),
                parent_path@ == base_spec + slashed(views(parts@).take(k as int)),
            decreases parts.len() - 1 - k,
        {
            assert(views(parts@).take(k + 1).drop_last() =~= views(parts@).take(k as int));
            push_char(&mut parent_path, '/');
            push_text(&mut parent_path, parts[k].as_str());
            k = k + 1;
            assert(parent_path@ =~= base_spec + slashed(views(parts@).take(k as int)));
        }
    } else {
        proof {
            if url_path@.len() > 0 && segments(url_path@, true).len() > 1 {
                assert(false);
            }
        }
    }
    DirectoryPage {
        breadcrumbs,
        entries,
        has_parent,
        parent_path,
        workspace_id: String::from_str(workspace_id),
        workspace_name: String::from_str(workspace_name),
    }
}

/// No entry goes before one that precedes it.
pub open spec fn in_listing_order(s: Seq<EntryView>) -> bool {
    forall|i: int, j: int| 0 <= i < j < s.len() ==> !goes_before(#[trigger] s[j], #[trigger] s[i])
}

proof fn lemma_lex_less_asymmetric(a: Seq<char>, b: Seq<char>)
    ensures
        lex_less(a, b) ==> !lex_less(b, a),
    decreases a.len(),
{
    if a.len() > 0 && b.len() > 0 && a[0] == b[0] {
        lemma_lex_less_asymmetric(a.drop_first(), b.drop_first());
    }
}

proof fn lemma_lex_less_transitive(a: Seq<char>, b: Seq<char>, c: Seq<char>)
    requires
        lex_less(a, b),
        lex_less(b, c),
    ensures
        lex_less(a, c),
    decreases a.len(),
{
    if a.len() > 0 && a[0] == b[0] && b[0] == c[0] {
        lemma_lex_less_transitive(a.drop_first(), b.drop_first(), c.drop_first());
    }
}

proof fn lemma_goes_before_order(a: EntryView, b: EntryView, c: EntryView)
    ensures
        goes_before(a, b) ==> !goes_before(b, a),
        goes_before(a, b) && goes_before(b, c) ==> goes_before(a, c),
{
    lemma_lex_less_asymmetric(lower_of(a.name), lower_of(b.name));
    if goes_before(a, b) && goes_before(b, c) && a.is_dir == b.is_dir && b.is_dir == c.is_dir {
        lemma_lex_less_transitive(lower_of(a.name), lower_of(b.name), lower_of(c.name));
    }
}

/// Where `insert_in_order` puts `e`.
spec fn insert_index(s: Seq<EntryView>, e: EntryView) -> int
    decreases s.len(),
{
    if s.len() == 0 || goes_before(e, s[0]) {
        0
    } else {
        1 + insert_index(s.drop_first(), e)
    }
}

proof fn lemma_insert_index(s: Seq<EntryView>, e: EntryView)
    ensures
        0 <= insert_index(s, e) <= s.len(),
        forall|k: int| 0 <= k < insert_index(s, e) ==> !goes_before(e, #[trigger] s[k]),
        insert_index(s, e) == s.len() || goes_before(e, s[insert_index(s, e)]),
    decreases s.len(),
{
    if s.len() > 0 && !goes_before(e, s[0]) {
        let t = s.drop_first();
        lemma_insert_index(t, e);
        assert forall|k: int| 0 <= k < insert_index(s, e) implies !goes_before(e, #[trigger] s[k]) by {
            if k > 0 {
                assert(s[k] == t[k - 1]);
            }
        }
    }
}

proof fn lemma_insert_keeps_order(s: Seq<EntryView>, e: EntryView)
    requires
        in_listing_order(s),
    ensures
        in_listing_order(insert_in_order(s, e)),
        insert_in_order(s, e).to_multiset() == s.to_multiset().insert(e),
{
    lemma_insert_index(s, e);
    let j = insert_index(s, e);
    lemma_insert_at(s, e, j);
    let r = s.insert(j, e);
    vstd::seq_lib::to_multiset_insert(s, j, e);
    assert forall|a: int, b: int| 0 <= a < b < r.len() implies !goes_before(#[trigger] r[b], #[trigger] r[a]) by {
        if a == j {
            lemma_goes_before_order(s[b - 1], e, s[j]);
            lemma_goes_before_order(e, s[j], s[j]);
            if b - 1 > j {
                assert(!goes_before(s[b - 1], s[j]));
            }
        } else if b == j {
            assert(r[a] == s[a]);
        } else {
            let a1 = if a < j { a } else { a - 1 };
            let b1 = if b < j { b } else { b - 1 };
            assert(r[a] == s[a1]);
            assert(r[b] == s[b1]);
        }
    }
}

/// The entries of a directory page come directories first, then by
/// lower-cased name, and they are exactly the shown entries: none is lost
/// or repeated.
pub proof fn lemma_sorted_entries(s: Seq<EntryView>)
    ensures
        in_listing_order(sorted_entries(s)),
        sorted_entries(s).to_multiset() == s.to_multiset(),
    decreases s.len(),
{
    if s.len() > 0 {
        let init = s.drop_last();
        lemma_sorted_entries(init);
        lemma_insert_keeps_order(sorted_entries(init), s.last());
        vstd::seq_lib::to_multiset_build(init, s.last());
        assert(init.push(s.last()) =~= s);
    }
}

} // verus!

//! Data for the viewer's pages: breadcrumbs, sizes, listings, content types.
//! Turning it into HTML is left to the templates.

use vstd::prelude::*;
use vstd::arithmetic::div_mod::lemma_div_denominator;
use crate::path::{segments, slashed, split_segments, views};
use crate::workspace::WorkspaceDescriptor;
use crate::text::{decimal, digit_chars, push_char, push_radix, push_text, view_prefix, view_prefix_string};

verus! {

/// One step of the path shown above a page.
#[derive(Clone, Debug)]
pub struct BreadcrumbItem {
    pub name: String,
    pub path: String,
    pub is_last: bool,
}

pub struct Crumb {
    pub name: Seq<char>,
    pub path: Seq<char>,
    pub is_last: bool,
}

impl View for BreadcrumbItem {
    type V = Crumb;

    open spec fn view(&self) -> Crumb {
        Crumb { name: self.name@, path: self.path@, is_last: self.is_last }
    }
}

pub open spec fn crumbs_view(v: Seq<BreadcrumbItem>) -> Seq<Crumb> {
    v.map_values(|b: BreadcrumbItem| b@)
}

/// The URL of a workspace's root listing.
pub open spec fn workspace_url(id: Seq<char>) -> Seq<char> {
    view_prefix() + id
}

/// The breadcrumbs of `path` in a workspace: a link to the server root, one
/// to the workspace, then one per non-empty piece of `path`, each linking to
/// the pieces up to it; the last crumb is marked.
pub open spec fn breadcrumbs_of(id: Seq<char>, name: Seq<char>, path: Seq<char>) -> Seq<Crumb> {
    let base = workspace_url(id);
    let parts = segments(path, true);
    seq![
        Crumb { name: seq!['r', 'o', 'o', 't'], path: seq!['/'], is_last: false },
        Crumb { name: name, path: base, is_last: path.len() == 0 },
    ] + Seq::new(
        parts.len(),
        |k: int|
            Crumb {
                name: parts[k],
                path: base + slashed(parts.take(k + 1)),
                is_last: k == parts.len() - 1,
            },
    )
}

/// The URL of a workspace's root listing.
pub fn workspace_view_url(workspace_id: &str) -> (r: String)
    ensures
        r@ == workspace_url(workspace_id@),
{
    let mut url = view_prefix_string();
    push_text(&mut url, workspace_id);
    url
}

/// One line of the server's front page.
pub open spec fn workspace_item_html(id: Seq<char>, name: Seq<char>, root: Seq<char>) -> Seq<char> {
    "<li><a href=\"/view/"@ + id + "\" style=\"color:#58a6ff;\">"@ + name
        + "</a> <span style=\"color:#8b949e;\">- "@ + root + "</span></li>"@
}

/// The lines for the first `n` workspaces, separated by newlines.
pub open spec fn workspace_items_html(ws: Seq<WorkspaceDescriptor>, n: nat) -> Seq<char>
    decreases n,
{
    if n == 0 {
        Seq::empty()
    } else {
        let d = ws[n - 1];
        let item = workspace_item_html(d.id@, d.name@, d.root_dir@);
        if n == 1 {
            item
        } else {
            workspace_items_html(ws, (n - 1) as nat) + "\n"@ + item
        }
    }
}

/// The workspace part of the front page.
pub open spec fn workspace_list_html(ws: Seq<WorkspaceDescriptor>) -> Seq<char> {
    if ws.len() == 0 {
        "<p style=\"color:#8b949e;\">No workspaces registered yet.</p>"@
    } else {
        "<ul>"@ + workspace_items_html(ws, ws.len()) + "</ul>"@
    }
}

/// The workspace list of the server's front page, one line per workspace.
pub fn workspace_list(workspaces: &Vec<WorkspaceDescriptor>) -> (r: String)
    ensures
        r@ == workspace_list_html(workspaces@),
{
    if workspaces.len() == 0 {
        return String::from_str("<p style=\"color:#8b949e;\">No workspaces registered yet.</p>");
    }
    let mut out = String::from_str("<ul>");
    let mut i: usize = 0;
    while i < workspaces.len()
        invariant
            i <= workspaces.len(),
            out@ == "<ul>"@ + workspace_items_html(workspaces@, i as nat),
        decreases workspaces.len() - i,
    {
        let d = &workspaces[i];
        if i > 0 {
            push_text(&mut out, "\n");
        }
        push_text(&mut out, "<li><a href=\"/view/");
        push_text(&mut out, d.id.as_str());
        push_text(&mut out, "\" style=\"color:#58a6ff;\">");
        push_text(&mut out, d.name.as_str());
        push_text(&mut out, "</a> <span style=\"color:#8b949e;\">- ");
        push_text(&mut out, d.root_dir.as_str());
        push_text(&mut out, "</span></li>");
        i = i + 1;
        assert(out@ =~= "<ul>"@ + workspace_items_html(workspaces@, i as nat));
    }
    push_text(&mut out, "</ul>");
    out
}

pub fn generate_breadcrumbs(workspace_id: &str, workspace_name: &str, path: &str) -> (r: Vec<
    BreadcrumbItem,
>)
    ensures
        crumbs_view(r@) == breadcrumbs_of(workspace_id@, workspace_name@, path@),
{
    let ghost base_spec = workspace_url(workspace_id@);
    let mut base = view_prefix_string();
    push_text(&mut base, workspace_id);
    let root_name = "root";
    let root_path = "/";
    proof {
        reveal_strlit("root");
        reveal_strlit("/");
    }
    let mut out: Vec<BreadcrumbItem> = Vec::new();
    out.push(BreadcrumbItem {
        name: String::from_str(root_name),
        path: String::from_str(root_path),
        is_last: false,
    });
    out.push(BreadcrumbItem {
        name: String::from_str(workspace_name),
        path: base.clone(),
        is_last: path.unicode_len() == 0,
    });
    let parts = split_segments(path, true);
    let ghost ps = segments(path@, true);
    let ghost head = seq![
        Crumb { name: seq!['r', 'o', 'o', 't'], path: seq!['/'], is_last: false },
        Crumb { name: workspace_name@, path: base_spec, is_last: path@.len() == 0 },
    ];
    assert(root_name@ =~= seq!['r', 'o', 'o', 't']);
    assert(root_path@ =~= seq!['/']);
    assert(crumbs_view(out@) =~= head);
    let mut current = base;
    let mut k: usize = 0;
    while k < parts.len()
        invariant
            k <= parts.len(),
            views(parts@) == ps,
            current@ == base_spec + slashed(ps.take(k as int)),
            crumbs_view(out@) == head + Seq::new(
                k as nat,
                |j: int|
                    Crumb {
                        name: ps[j],
                        path: base_spec + slashed(ps.take(j + 1)),
                        is_last: j == ps.len() - 1,
                    },
            ),
        decreases parts.len() - k,
    {
        let ghost before = crumbs_view(out@);
        push_char(&mut current, '/');
        push_text(&mut current, parts[k].as_str());
        assert(ps.take(k + 1).drop_last() =~= ps.take(k as int));
        assert(current@ =~= base_spec + slashed(ps.take(k + 1)));
        assert(ps[k as int] == parts@[k as int]@);
        let ghost item = Crumb {
            name: ps[k as int],
            path: base_spec + slashed(ps.take(k + 1)),
            is_last: k == ps.len() - 1,
        };
        out.push(BreadcrumbItem {
            name: parts[k].clone(),
            path: current.clone(),
            is_last: k == parts.len() - 1,
        });
        assert(crumbs_view(out@) =~= before.push(item));
        k = k + 1;
        assert(crumbs_view(out@) =~= head + Seq::new(
            k as nat,
            |j: int|
                Crumb {
                    name: ps[j],
                    path: base_spec + slashed(ps.take(j + 1)),
                    is_last: j == ps.len() - 1,
                },
        ));
    }
    assert(crumbs_view(out@) =~= breadcrumbs_of(workspace_id@, workspace_name@, path@));
    out
}

pub open spec fn two_to(k: nat) -> nat
    decreases k,
{
    if k == 0 {
        1
    } else {
        2 * two_to((k - 1) as nat)
    }
}

/// The number of low bits a double cannot keep of `n` (it keeps 53).
pub open spec fn excess_bits(n: nat) -> nat
    decreases n,
{
    if n < 0x20_0000_0000_0000 {
        0
    } else {
        1 + excess_bits(n / 2)
    }
}

/// `num / den` rounded to the nearest integer, ties to the even one.
pub open spec fn round_half_even(num: nat, den: nat) -> nat {
    let q = num / den;
    let r = num % den;
    if 2 * r > den || (2 * r == den && q % 2 == 1) {
        q + 1
    } else {
        q
    }
}

/// The value of `n` converted to a double: the nearest number with 53
/// significant bits, ties to even.
pub open spec fn nearest_double(n: nat) -> nat {
    let p = two_to(excess_bits(n));
    round_half_even(n, p) * p
}

/// `v / unit` written with one decimal, rounded half to even.
pub open spec fn one_decimal(v: nat, unit: nat) -> Seq<char> {
    let t = round_half_even(v * 10, unit);
    decimal(t / 10) + seq!['.'] + seq![digit_chars()[(t % 10) as int]]
}

pub open spec fn file_size_text(size: nat) -> Seq<char> {
    if size >= 0x4000_0000 {
        one_decimal(nearest_double(size), 0x4000_0000) + seq![' ', 'G', 'B']
    } else if size >= 0x10_0000 {
        one_decimal(size, 0x10_0000) + seq![' ', 'M', 'B']
    } else if size >= 0x400 {
        one_decimal(size, 0x400) + seq![' ', 'K', 'B']
    } else {
        decimal(size) + seq![' ', 'B']
    }
}

fn round_half_even_exec(num: u128, den: u128) -> (r: u128)
    requires
        den > 0,
        den < u128::MAX / 2,
        num < u128::MAX / 2,
    ensures
        r == round_half_even(num as nat, den as nat),
{
    let q = num / den;
    let rem = num % den;
    if 2 * rem > den || (2 * rem == den && q % 2 == 1) {
        q + 1
    } else {
        q
    }
}

fn nearest_double_exec(n: u64) -> (r: u128)
    ensures
        r == nearest_double(n as nat),
        r <= 0x1_0000_0000_0000_1000,
{
    let mut m: u64 = n;
    let mut p: u128 = 1;
    let ghost mut k: nat = 0;
    while m >= 0x20_0000_0000_0000
        invariant
            p == two_to(k),
            p >= 1,
            m as nat == (n as nat) / (p as nat),
            p <= 4096,
            excess_bits(n as nat) == k + excess_bits(m as nat),
        decreases m,
    {
        proof {
            lemma_div_denominator(n as int, p as int, 2);
            assert(p * m <= n) by (nonlinear_arith)
                requires
                    m as nat == (n as nat) / (p as nat),
                    p > 0,
            ;
            assert(p < 2048) by (nonlinear_arith)
                requires
                    p * m <= n,
                    m >= 0x20_0000_0000_0000,
                    n < 0x1_0000_0000_0000_0000,
            ;
        }
        m = m / 2;
        p = p * 2;
        proof {
            k = k + 1;
        }
    }
    let num = n as u128;
    let q = round_half_even_exec(num, p);
    proof {
        let a = num / p;
        assert(q <= a + 1);
        vstd::arithmetic::div_mod::lemma_fundamental_div_mod(num as int, p as int);
        assert(q * p <= 0x1_0000_0000_0000_1000) by (nonlinear_arith)
            requires
                q <= a + 1,
                p >= 1,
                p <= 4096,
                num < 0x1_0000_0000_0000_0000,
                num == p * a + num % p,
                num % p >= 0,
        ;
    }
    q * p
}

/// Appends `v / unit` with one decimal.
fn push_one_decimal(out: &mut String, v: u128, unit: u128)
    requires
        unit >= 0x400,
        unit <= 0x4000_0000,
        v <= 0x1_0000_0000_0000_1000,
    ensures
        final(out)@ == old(out)@ + one_decimal(v as nat, unit as nat),
{
    let t = round_half_even_exec(v * 10, unit);
    proof {
        assert(t <= (v * 10) as int / unit as int + 1);
        assert((v * 10) as int / unit as int <= (v * 10) as int / 0x400) by {
            vstd::arithmetic::div_mod::lemma_div_is_ordered_by_denominator(
                (v * 10) as int,
                0x400,
                unit as int,
            );
        }
    }
    let whole = (t / 10) as u64;
    push_radix(out, whole, 10);
    push_char(out, '.');
    let digits = "0123456789";
    proof {
        reveal_strlit("0123456789");
        assert(forall|i: int| 0 <= i < 10 ==> digits@[i] == digit_chars()[i]);
    }
    let c = digits.get_char((t % 10) as usize);
    push_char(out, c);
    assert(final(out)@ =~= old(out)@ + one_decimal(v as nat, unit as nat));
}

/// A byte count for people: bytes below 1 KiB, else KB, MB or GB (powers
/// of 1024) with one decimal, rounded as a double would be printed.
pub fn format_file_size(size: u64) -> (r: String)
    ensures
        r@ == file_size_text(size as nat),
{
    let mut out = String::new();
    if size >= 0x4000_0000 {
        let v = nearest_double_exec(size);
        push_one_decimal(&mut out, v, 0x4000_0000);
        push_text(&mut out, " GB");
        proof { reveal_strlit(" GB"); }
    } else if size >= 0x10_0000 {
        push_one_decimal(&mut out, size as u128, 0x10_0000);
        push_text(&mut out, " MB");
        proof { reveal_strlit(" MB"); }
    } else if size >= 0x400 {
        push_one_decimal(&mut out, size as u128, 0x400);
        push_text(&mut out, " KB");
        proof { reveal_strlit(" KB"); }
    } else {
        push_radix(&mut out, size, 10);
        push_text(&mut out, " B");
        proof { reveal_strlit(" B"); }
    }
    assert(out@ =~= file_size_text(size as nat));
    out
}

} // verus!

//! Decisions of the command surface around import, export and batch
//! creation: which lines of a pasted text become tasks, how an imported
//! record picks its directory and filename, and what the export carries.

use vstd::prelude::*;
use crate::scheduler::Scheduler;
use crate::task::Task;
use crate::text::{
    spec_trim, str_trim, first_idx, find_char, starts_with, str_starts_with,
};
use crate::network::is_http_url;

verus! {

/// One task of an export or import payload.
pub struct TransferEntry {
    pub url: String,
    pub save_path: String,
    pub filename: String,
}

/// Field equality of an export entry with the task it describes.
pub open spec fn entry_matches(e: TransferEntry, t: Task) -> bool {
    &&& e.url@ == t.url@
    &&& e.save_path@ == t.save_path@
    &&& e.filename@ == t.filename@
}

impl Scheduler {
    /// The records an export carries: URL, save path and filename of every
    /// task, in map order.
    pub fn export_entries(&self) -> (r: Vec<TransferEntry>)
        ensures
            r@.len() == self@.len(),
            forall|i: int| 0 <= i < r@.len() ==> entry_matches(#[trigger] r@[i], self@[i]),
    {
        let n = self.len();
        let mut out: Vec<TransferEntry> = Vec::new();
        let mut i: usize = 0;
        while i < n
            invariant
                0 <= i <= n,
                n == self@.len(),
                out@.len() == i,
                forall|j: int| 0 <= j < i as int ==> entry_matches(#[trigger] out@[j], self@[j]),
            decreases n - i,
        {
            let t = self.task_at_index(i);
            out.push(
                TransferEntry {
                    url: t.url.clone(),
                    save_path: t.save_path.clone(),
                    filename: t.filename.clone(),
                },
            );
            i = i + 1;
        }
        out
    }
}

/// Whether an import text is the JSON export format rather than a list of
/// URLs: it begins (after trimming) with `{`.
pub fn import_is_json(text: &str) -> (r: bool)
    ensures
        r == (spec_trim(text@).len() > 0 && spec_trim(text@)[0] == '{'),
{
    let t = str_trim(text);
    t.unicode_len() > 0 && t.get_char(0) == '{'
}

/// Whether a trimmed line of an URL-list import is kept: non-empty and an
/// HTTP or HTTPS URL.
pub open spec fn keeps_url_line(line: Seq<char>) -> bool {
    line.len() > 0 && (starts_with(line, "http://"@) || starts_with(line, "https://"@))
}

/// The URLs an URL-list import yields: each line trimmed, blank lines and
/// lines of any other scheme dropped, order kept.
pub open spec fn spec_url_lines(s: Seq<char>) -> Seq<Seq<char>>
    decreases s.len(),
    via spec_url_lines_decreases
{
    let cut = first_idx(s, '\n');
    let line = spec_trim(s.take(cut));
    let head: Seq<Seq<char>> = if keeps_url_line(line) {
        seq![line]
    } else {
        Seq::empty()
    };
    if cut < s.len() {
        head + spec_url_lines(s.skip(cut + 1))
    } else {
        head
    }
}

#[via_fn]
proof fn spec_url_lines_decreases(s: Seq<char>) {
    crate::text::lemma_first_idx(s, '\n');
}

/// Split an import text into the URLs it lists, one per line, dropping blank
/// lines and anything that is not an HTTP or HTTPS URL.
pub fn import_url_lines(text: &str) -> (r: Vec<String>)
    ensures
        r.deep_view() == spec_url_lines(text@),
    decreases text@.len(),
{
    let n = text.unicode_len();
    let cut = find_char(text, '\n');
    proof {
        crate::text::lemma_first_idx(text@, '\n');
    }
    let line = str_trim(text.substring_char(0, cut));
    let keep = line.unicode_len() > 0 && is_http_url(line);
    let mut out: Vec<String> = Vec::new();
    if keep {
        out.push(line.to_owned());
    }
    if cut < n {
        let mut rest = import_url_lines(text.substring_char(cut + 1, n));
        let ghost head = out.deep_view();
        let ghost tail = rest.deep_view();
        out.append(&mut rest);
        proof {
            assert(out.deep_view() =~= head + tail);
            assert(out.deep_view() =~= spec_url_lines(text@));
        }
        out
    } else {
        proof {
            assert(out.deep_view() =~= spec_url_lines(text@));
        }
        out
    }
}

/// Whether a character separates path components.
pub open spec fn is_sep(c: char) -> bool {
    c == '/' || c == '\\'
}

/// `k` is the position of the last separator of `s`.
pub open spec fn last_sep_at(s: Seq<char>, k: int) -> bool {
    &&& 0 <= k < s.len()
    &&& is_sep(s[k])
    &&& forall|m: int| k < m < s.len() ==> !is_sep(#[trigger] s[m])
}

/// The directory prefix of a path: what precedes its last separator (either
/// `/` or `\`), and nothing for a path without one.
pub open spec fn spec_path_parent(s: Seq<char>) -> Option<Seq<char>> {
    if (exists|k: int| 0 <= k < s.len() && is_sep(#[trigger] s[k])) {
        Some(s.take(choose|k: int| last_sep_at(s, k)))
    } else {
        None
    }
}

/// The directory part of a path: everything before the last `/` or `\`;
/// nothing when the path has no separator.
pub fn path_parent(path: &str) -> (r: Option<String>)
    ensures
        match r {
            Some(p) => spec_path_parent(path@) == Some(p@),
            None => spec_path_parent(path@) is None,
        },
{
    let n = path.unicode_len();
    let mut i: usize = n;
    while i > 0
        invariant
            0 <= i <= n,
            n == path@.len(),
            forall|k: int| i <= k < n ==> !is_sep(#[trigger] path@[k]),
        decreases i,
    {
        let c = path.get_char(i - 1);
        if c == '/' || c == '\\' {
            proof {
                let cut = i as int - 1;
                assert(last_sep_at(path@, cut));
                let w = choose|k: int| last_sep_at(path@, k);
                if w < cut {
                    assert(!is_sep(path@[cut]));
                } else if cut < w {
                    assert(!is_sep(path@[w]));
                }
            }
            return Some(path.substring_char(0, i - 1).to_owned());
        }
        i = i - 1;
    }
    None
}

/// What one imported record becomes: dropped unless its URL (trimmed) is
/// HTTP or HTTPS; its directory is the parent of its save path when one is
/// given, else the default directory; an empty filename means none.
pub struct ImportPlan {
    pub url: String,
    pub save_dir: String,
    pub filename: Option<String>,
}

/// Decide what to do with one imported record.
pub fn import_entry_plan(entry: &TransferEntry, default_dir: &str) -> (r: Option<ImportPlan>)
    ensures
        match r {
            Some(p) => {
                let u = spec_trim(entry.url@);
                &&& keeps_url_line(u)
                &&& p.url@ == u
                &&& p.save_dir@ == (if entry.save_path@.len() == 0 {
                    default_dir@
                } else {
                    match spec_path_parent(entry.save_path@) {
                        Some(d) => d,
                        None => default_dir@,
                    }
                })
                &&& p.filename.deep_view() == (if entry.filename@.len() == 0 {
                    None::<Seq<char>>
                } else {
                    Some(entry.filename@)
                })
            },
            None => !keeps_url_line(spec_trim(entry.url@)),
        },
{
    let url = str_trim(entry.url.as_str());
    if !(url.unicode_len() > 0 && is_http_url(url)) {
        return None;
    }
    let save_dir = if entry.save_path.as_str().unicode_len() == 0 {
        default_dir.to_owned()
    } else {
        match path_parent(entry.save_path.as_str()) {
            Some(d) => d,
            None => default_dir.to_owned(),
        }
    };
    let filename = if entry.filename.as_str().unicode_len() == 0 {
        None
    } else {
        Some(entry.filename.clone())
    };
    Some(ImportPlan { url: url.to_owned(), save_dir, filename })
}

/// What one URL of a batch request becomes: dropped when blank after
/// trimming or not starting with `http`; the directory falls back to `.`
/// when blank.
pub fn batch_candidate(url: &str, save_dir: &str) -> (r: Option<(String, String)>)
    ensures
        match r {
            Some(p) => {
                let u = spec_trim(url@);
                &&& u.len() > 0
                &&& starts_with(u, "http"@)
                &&& p.0@ == u
                &&& p.1@ == (if spec_trim(save_dir@).len() == 0 {
                    "."@
                } else {
                    spec_trim(save_dir@)
                })
            },
            None => !(spec_trim(url@).len() > 0 && starts_with(spec_trim(url@), "http"@)),
        },
{
    let u = str_trim(url);
    if u.unicode_len() == 0 || !str_starts_with(u, "http") {
        return None;
    }
    let d = str_trim(save_dir);
    let dir = if d.unicode_len() == 0 {
        String::from_str(".")
    } else {
        d.to_owned()
    };
    Some((u.to_owned(), dir))
}

} // verus!

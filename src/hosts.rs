//! Name-to-address records for lobby members, kept in a marked block of
//! the system hosts file. Every operation here maps the file's old text to
//! its new text; reading and writing the file is the caller's.
use vstd::prelude::*;
use vstd::string::*;
use crate::text::{
    block, block_of, contains, contains_seq, join_lines, joined, lines, lines_view, replace_all,
    replace_from, same_text, starts_with, starts_with_seq,
};

verus! {

/// Start of every block this program writes.
pub const MARKER_PREFIX: &'static str = "# MCTier Magic DNS";

/// Line that closes a block.
pub const MARKER_END: &'static str = "# MCTier Magic DNS End";

/// The lines of a hosts file sorted into those before the first block, the
/// block's, and those after it, and whether the last line was inside it.
pub struct Sections {
    pub before: Seq<Seq<char>>,
    pub section: Seq<Seq<char>>,
    pub after: Seq<Seq<char>>,
    pub inside: bool,
}

/// Sorts `ls`: a line starting with `start` opens the block, a line equal
/// to `end` closes it, lines in between belong to it; others go before the
/// block until it has a line, after it from then on.
pub open spec fn sections(ls: Seq<Seq<char>>, start: Seq<char>, end: Seq<char>) -> Sections
    decreases ls.len(),
{
    if ls.len() == 0 {
        Sections {
            before: Seq::empty(),
            section: Seq::empty(),
            after: Seq::empty(),
            inside: false,
        }
    } else {
        let r = sections(ls.drop_last(), start, end);
        let l = ls.last();
        if starts_with_seq(l, start) {
            Sections { section: r.section.push(l), inside: true, ..r }
        } else if l == end {
            Sections { section: r.section.push(l), inside: false, ..r }
        } else if r.inside {
            Sections { section: r.section.push(l), ..r }
        } else if r.section.len() == 0 {
            Sections { before: r.before.push(l), ..r }
        } else {
            Sections { after: r.after.push(l), ..r }
        }
    }
}

/// The three parts of a hosts file's text, each written out line by line.
pub open spec fn split_view(content: Seq<char>, start: Seq<char>, end: Seq<char>) -> (Seq<char>, Seq<char>, Seq<char>) {
    let s = sections(lines_view(content), start, end);
    (block(s.before), block(s.section), block(s.after))
}

/// The record line for `domain` at `ip`.
pub open spec fn entry_line(domain: Seq<char>, ip: Seq<char>) -> Seq<char> {
    ip + " "@ + domain
}

/// The block with the record for `domain` at `ip` added before its closing
/// line, or a new block holding just that record; unchanged when it already
/// holds the record.
pub open spec fn section_with(section: Seq<char>, start: Seq<char>, end: Seq<char>, domain: Seq<char>, ip: Seq<char>) -> Seq<char> {
    let e = entry_line(domain, ip);
    if contains_seq(section, e) {
        section
    } else if section.len() == 0 {
        start + "\n"@ + e + "\n"@ + end + "\n"@
    } else {
        replace_from(section, end, e + "\n"@ + end, 0)
    }
}

/// The lines not mentioning `domain`.
pub open spec fn lines_without(ls: Seq<Seq<char>>, domain: Seq<char>) -> Seq<Seq<char>>
    decreases ls.len(),
{
    if ls.len() == 0 {
        ls
    } else if contains_seq(ls.last(), domain) {
        lines_without(ls.drop_last(), domain)
    } else {
        lines_without(ls.drop_last(), domain).push(ls.last())
    }
}

/// The lines left once every block is cut out. A block runs from a line
/// starting with the marker prefix; the closing line starts with it too,
/// so a block, once opened, runs to the end of the file.
pub open spec fn outside_blocks(ls: Seq<Seq<char>>, prefix: Seq<char>) -> (Seq<Seq<char>>, bool)
    decreases ls.len(),
{
    if ls.len() == 0 {
        (Seq::empty(), false)
    } else {
        let r = outside_blocks(ls.drop_last(), prefix);
        let l = ls.last();
        if starts_with_seq(l, prefix) {
            (r.0, true)
        } else if l == MARKER_END@ {
            (r.0, false)
        } else if r.1 {
            r
        } else {
            (r.0.push(l), r.1)
        }
    }
}

/// The text left once every block is cut out, ending with a line break
/// when it is not empty.
pub open spec fn cleaned_view(content: Seq<char>) -> Seq<char> {
    let j = joined(outside_blocks(lines_view(content), MARKER_PREFIX@).0);
    if j.len() > 0 && j.last() != '\n' {
        j + "\n"@
    } else {
        j
    }
}

/// Keeps the records of one lobby in the hosts file at `hosts_path`.
pub struct HostsManager {
    hosts_path: String,
    marker_start: String,
    marker_end: String,
}

impl HostsManager {
    pub closed spec fn start_marker(&self) -> Seq<char> {
        self.marker_start@
    }

    pub closed spec fn end_marker(&self) -> Seq<char> {
        self.marker_end@
    }

    pub closed spec fn path(&self) -> Seq<char> {
        self.hosts_path@
    }

    /// A manager for lobby `lobby_name` over the file at `hosts_path`.
    pub fn with_hosts_path(lobby_name: &str, hosts_path: &str) -> (r: HostsManager)
        ensures
            r.start_marker() == MARKER_PREFIX@ + " - "@ + lobby_name@,
            r.end_marker() == MARKER_END@,
            r.path() == hosts_path@,
    {
        let mut start = String::from_str(MARKER_PREFIX);
        start.append(" - ");
        start.append(lobby_name);
        HostsManager {
            hosts_path: String::from_str(hosts_path),
            marker_start: start,
            marker_end: String::from_str(MARKER_END),
        }
    }

    /// A manager for lobby `lobby_name` over `/etc/hosts`.
    pub fn new(lobby_name: &str) -> (r: HostsManager)
        ensures
            r.start_marker() == MARKER_PREFIX@ + " - "@ + lobby_name@,
            r.end_marker() == MARKER_END@,
            r.path() == "/etc/hosts"@,
    {
        HostsManager::with_hosts_path(lobby_name, "/etc/hosts")
    }

    /// The hosts file's path.
    pub fn hosts_path(&self) -> (r: &str)
        ensures
            r@ == self.path(),
    {
        self.hosts_path.as_str()
    }

    /// Splits a hosts file's text into the lines before this lobby's block,
    /// the block, and the lines after it, each part written out line by line.
    pub fn split_content(&self, content: &str) -> (r: (String, String, String))
        ensures
            (r.0@, r.1@, r.2@) == split_view(content@, self.start_marker(), self.end_marker()),
    {
        let ls = lines(content);
        let ghost all = ls@.map_values(|x: String| x@);
        let mut before: Vec<String> = Vec::new();
        let mut section: Vec<String> = Vec::new();
        let mut after: Vec<String> = Vec::new();
        let mut inside = false;
        let mut i: usize = 0;
        assert(all.take(0) =~= Seq::<Seq<char>>::empty());
        assert(before@.map_values(|x: String| x@) =~= Seq::<Seq<char>>::empty());
        assert(section@.map_values(|x: String| x@) =~= Seq::<Seq<char>>::empty());
        assert(after@.map_values(|x: String| x@) =~= Seq::<Seq<char>>::empty());
        while i < ls.len()
            invariant
                all == ls@.map_values(|x: String| x@),
                0 <= i <= ls.len(),
                sections(all.take(i as int), self.start_marker(), self.end_marker()) == (Sections {
                    before: before@.map_values(|x: String| x@),
                    section: section@.map_values(|x: String| x@),
                    after: after@.map_values(|x: String| x@),
                    inside,
                }),
            decreases ls.len() - i,
        {
            assert(all.take(i + 1).drop_last() =~= all.take(i as int));
            assert(all.take(i + 1).last() == ls[i as int]@);
            let l = ls[i].as_str();
            let ghost pb = before@;
            let ghost ps = section@;
            let ghost pa = after@;
            if starts_with(l, self.marker_start.as_str()) {
                inside = true;
                section.push(String::from_str(l));
            } else if same_text(l, self.marker_end.as_str()) {
                section.push(String::from_str(l));
                inside = false;
            } else if inside {
                section.push(String::from_str(l));
            } else if section.len() == 0 {
                before.push(String::from_str(l));
            } else {
                after.push(String::from_str(l));
            }
            assert(before@.map_values(|x: String| x@) =~= sections(all.take(i + 1), self.start_marker(), self.end_marker()).before);
            assert(section@.map_values(|x: String| x@) =~= sections(all.take(i + 1), self.start_marker(), self.end_marker()).section);
            assert(after@.map_values(|x: String| x@) =~= sections(all.take(i + 1), self.start_marker(), self.end_marker()).after);
            i = i + 1;
        }
        assert(all.take(i as int) =~= all);
        (block_of(&before), block_of(&section), block_of(&after))
    }

    /// The text with the record `ip domain` in this lobby's block: added
    /// before the closing line, or in a new block, unless already there.
    pub fn add_entry(&self, content: &str, domain: &str, ip: &str) -> (r: String)
        requires
            self.end_marker().len() > 0,
        ensures
            r@ == with_entry_view(content@, self.start_marker(), self.end_marker(), domain@, ip@),
    {
        let (before, section, after) = self.split_content(content);
        let mut entry = String::from_str(ip);
        entry.append(" ");
        entry.append(domain);
        let new_section = if contains(section.as_str(), entry.as_str()) {
            section
        } else if section.unicode_len() == 0 {
            let mut s = self.marker_start.clone();
            s.append("\n");
            s.append(entry.as_str());
            s.append("\n");
            s.append(self.marker_end.as_str());
            s.append("\n");
            s
        } else {
            let mut replacement = entry.clone();
            replacement.append("\n");
            replacement.append(self.marker_end.as_str());
            replace_all(section.as_str(), self.marker_end.as_str(), replacement.as_str())
        };
        let mut out = before;
        out.append(new_section.as_str());
        out.append(after.as_str());
        out
    }

    /// The text without the block's lines that mention `domain`.
    pub fn remove_entry(&self, content: &str, domain: &str) -> (r: String)
        ensures
            r@ == without_entry_view(content@, self.start_marker(), self.end_marker(), domain@),
    {
        let (before, section, after) = self.split_content(content);
        let ls = lines(section.as_str());
        let ghost all = ls@.map_values(|x: String| x@);
        let mut kept: Vec<String> = Vec::new();
        let mut i: usize = 0;
        assert(all.take(0) =~= Seq::<Seq<char>>::empty());
        while i < ls.len()
            invariant
                all == ls@.map_values(|x: String| x@),
                0 <= i <= ls.len(),
                kept@.map_values(|x: String| x@) == lines_without(all.take(i as int), domain@),
            decreases ls.len() - i,
        {
            assert(all.take(i + 1).drop_last() =~= all.take(i as int));
            assert(all.take(i + 1).last() == ls[i as int]@);
            if !contains(ls[i].as_str(), domain) {
                kept.push(ls[i].clone());
            }
            assert(kept@.map_values(|x: String| x@) =~= lines_without(all.take(i + 1), domain@));
            i = i + 1;
        }
        assert(all.take(i as int) =~= all);
        let mut out = before;
        out.append(block_of(&kept).as_str());
        out.append(after.as_str());
        out
    }

    /// The text without this lobby's block.
    pub fn clear_all(&self, content: &str) -> (r: String)
        ensures
            r@ == split_view(content@, self.start_marker(), self.end_marker()).0 + split_view(
                content@,
                self.start_marker(),
                self.end_marker(),
            ).2,
    {
        let (before, _section, after) = self.split_content(content);
        let mut out = before;
        out.append(after.as_str());
        out
    }

    /// The text with each `(domain, ip)` record added in turn.
    pub fn add_entries(&self, content: &str, entries: &Vec<(String, String)>) -> (r: String)
        requires
            self.end_marker().len() > 0,
        ensures
            r@ == with_entries_view(content@, self.start_marker(), self.end_marker(), entries@.map_values(|e: (String, String)| (e.0@, e.1@))),
    {
        let ghost es = entries@.map_values(|e: (String, String)| (e.0@, e.1@));
        let mut cur = String::from_str(content);
        let mut i: usize = 0;
        assert(es.take(0) =~= Seq::<(Seq<char>, Seq<char>)>::empty());
        while i < entries.len()
            invariant
                es == entries@.map_values(|e: (String, String)| (e.0@, e.1@)),
                self.end_marker().len() > 0,
                0 <= i <= entries.len(),
                cur@ == with_entries_view(content@, self.start_marker(), self.end_marker(), es.take(i as int)),
            decreases entries.len() - i,
        {
            assert(es.take(i + 1).drop_last() =~= es.take(i as int));
            assert(es.take(i + 1).last() == (entries[i as int].0@, entries[i as int].1@));
            let (domain, ip) = (&entries[i].0, &entries[i].1);
            cur = self.add_entry(cur.as_str(), domain.as_str(), ip.as_str());
            i = i + 1;
        }
        assert(es.take(i as int) =~= es);
        cur
    }

    /// The text with every block of this program cut out, whatever lobby
    /// wrote it.
    pub fn cleanup_all_mctier_entries(content: &str) -> (r: String)
        ensures
            r@ == cleaned_view(content@),
    {
        let ls = lines(content);
        let ghost all = ls@.map_values(|x: String| x@);
        let mut kept: Vec<String> = Vec::new();
        let mut inside = false;
        let mut i: usize = 0;
        assert(all.take(0) =~= Seq::<Seq<char>>::empty());
        while i < ls.len()
            invariant
                all == ls@.map_values(|x: String| x@),
                0 <= i <= ls.len(),
                outside_blocks(all.take(i as int), MARKER_PREFIX@) == (kept@.map_values(|x: String| x@), inside),
            decreases ls.len() - i,
        {
            assert(all.take(i + 1).drop_last() =~= all.take(i as int));
            assert(all.take(i + 1).last() == ls[i as int]@);
            let l = ls[i].as_str();
            if starts_with(l, MARKER_PREFIX) {
                inside = true;
            } else if same_text(l, MARKER_END) {
                inside = false;
            } else if !inside {
                kept.push(ls[i].clone());
            }
            assert(kept@.map_values(|x: String| x@) =~= outside_blocks(all.take(i + 1), MARKER_PREFIX@).0);
            i = i + 1;
        }
        assert(all.take(i as int) =~= all);
        let j = join_lines(&kept);
        let n = j.as_str().unicode_len();
        if n > 0 && j.as_str().get_char(n - 1) != '\n' {
            let mut out = j;
            out.append("\n");
            out
        } else {
            j
        }
    }
}

/// The text once the record for `domain` at `ip` is in the block.
pub open spec fn with_entry_view(content: Seq<char>, start: Seq<char>, end: Seq<char>, domain: Seq<char>, ip: Seq<char>) -> Seq<char> {
    let p = split_view(content, start, end);
    p.0 + section_with(p.1, start, end, domain, ip) + p.2
}

/// The text once the block's lines mentioning `domain` are gone.
pub open spec fn without_entry_view(content: Seq<char>, start: Seq<char>, end: Seq<char>, domain: Seq<char>) -> Seq<char> {
    let p = split_view(content, start, end);
    p.0 + block(lines_without(lines_view(p.1), domain)) + p.2
}

/// The text once each record is added in turn.
pub open spec fn with_entries_view(content: Seq<char>, start: Seq<char>, end: Seq<char>, es: Seq<(Seq<char>, Seq<char>)>) -> Seq<char>
    decreases es.len(),
{
    if es.len() == 0 {
        content
    } else {
        let prev = with_entries_view(content, start, end, es.drop_last());
        with_entry_view(prev, start, end, es.last().0, es.last().1)
    }
}

} // verus!

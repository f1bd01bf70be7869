//! Directory listings: of the host, as the device's API hands them out, and as the
//! device writes them in text.

use vstd::prelude::*;

use crate::name_map;
use crate::name_map::NameMap;
use crate::sync::FileAttributes;
use crate::text;
use crate::text::{lines_of, parse_u64, starts_with, str_eq, words_of};

verus! {

/// An entry of a device directory.
#[derive(Debug, Clone)]
pub struct DirEntry {
    pub name: String,
    pub size: u64,
    pub is_dir: bool,
}

/// A host directory holds an entry whose name is not UTF-8.
#[derive(Debug, Clone, Copy, PartialEq, Eq, Structural)]
pub struct NonUtf8Name;

impl NonUtf8Name {
    /// What to tell the user.
    pub fn message(&self) -> (r: &'static str)
        ensures
            r@ == "non UTF-8 file name"@,
    {
        "non UTF-8 file name"
    }
}

/// Takes an entry of a host directory into a listing. `name` is absent where the
/// entry's name is not UTF-8.
pub fn add_host_entry(
    entries: &mut NameMap<FileAttributes>,
    name: Option<String>,
    size: u64,
    is_dir: bool,
) -> (r: Result<(), NonUtf8Name>)
    ensures
        match name {
            Some(n) => r is Ok && final(entries)@ == old(entries)@.insert(
                n@,
                FileAttributes { size, is_dir },
            ) && final(entries).pairs() == name_map::with_pair(
                old(entries).pairs(),
                n@,
                FileAttributes { size, is_dir },
            ),
            None => r == Err::<(), NonUtf8Name>(NonUtf8Name) && *final(entries) == *old(entries),
        },
        host_listing(
            old(entries).pairs(),
            seq![host_entry(name, FileAttributes { size, is_dir })],
        ) == match r {
            Ok(()) => Ok(final(entries).pairs()),
            Err(e) => Err(e),
        },
{
    proof {
        reveal_with_fuel(host_listing, 2);
    }
    match name {
        Some(n) => {
            entries.insert(n, FileAttributes { size, is_dir });
            Ok(())
        },
        None => Err(NonUtf8Name),
    }
}

/// An entry of a host directory: its name, where that is UTF-8, and its attributes.
pub struct HostEntry {
    pub name: Option<Seq<char>>,
    pub attr: FileAttributes,
}

/// An entry of a host directory, from its name as text.
pub open spec fn host_entry(name: Option<String>, attr: FileAttributes) -> HostEntry {
    HostEntry {
        name: match name {
            Some(n) => Some(n@),
            None => None,
        },
        attr,
    }
}

/// The listing that taking in the entries of a host directory one by one gives. It
/// fails at the first entry whose name is not UTF-8.
pub open spec fn host_listing(
    before: Seq<(Seq<char>, FileAttributes)>,
    entries: Seq<HostEntry>,
) -> Result<Seq<(Seq<char>, FileAttributes)>, NonUtf8Name>
    decreases entries.len(),
{
    if entries.len() == 0 {
        Ok(before)
    } else {
        match entries.first().name {
            Some(name) => host_listing(
                name_map::with_pair(before, name, entries.first().attr),
                entries.drop_first(),
            ),
            None => Err(NonUtf8Name),
        }
    }
}

/// The name and attributes of each entry of a host directory.
pub open spec fn named_entries(entries: Seq<HostEntry>) -> Seq<(Seq<char>, FileAttributes)> {
    entries.map_values(|e: HostEntry| (e.name->0, e.attr))
}

proof fn lemma_host_listing(done: Seq<(Seq<char>, FileAttributes)>, entries: Seq<HostEntry>)
    ensures
        match host_listing(name_map::collected(done), entries) {
            Ok(pairs) => {
                &&& forall|i: int| 0 <= i < entries.len() ==> (#[trigger] entries[i]).name is Some
                &&& pairs == name_map::collected(done + named_entries(entries))
            },
            Err(e) => exists|i: int|
                0 <= i < entries.len() && (#[trigger] entries[i]).name is None,
        },
    decreases entries.len(),
{
    if entries.len() == 0 {
        assert(done + named_entries(entries) =~= done);
    } else {
        let rest = entries.drop_first();
        assert forall|i: int| 0 < i < entries.len() implies #[trigger] entries[i] == rest[i - 1] by {}
        assert forall|i: int| 0 <= i < rest.len() implies #[trigger] rest[i] == entries[i + 1] by {}
        match entries.first().name {
            Some(name) => {
                let more = done.push((name, entries.first().attr));
                assert(more.drop_last() =~= done);
                lemma_host_listing(more, rest);
                assert(more + named_entries(rest) =~= done + named_entries(entries));
            },
            None => {
                assert(entries[0].name is None);
            },
        }
    }
}

/// Listing a host directory fails if and only if the name of some entry is not UTF-8.
/// Otherwise the listing holds each entry under its name, and no other.
pub proof fn law_host_directory_is_listed(entries: Seq<HostEntry>)
    ensures
        match host_listing(Seq::empty(), entries) {
            Ok(pairs) => {
                &&& forall|i: int| 0 <= i < entries.len() ==> (#[trigger] entries[i]).name is Some
                &&& pairs == name_map::collected(named_entries(entries))
                &&& name_map::distinct_names(pairs)
                &&& name_map::map_of(pairs) == name_map::collected_map(named_entries(entries))
            },
            Err(e) => exists|i: int|
                0 <= i < entries.len() && (#[trigger] entries[i]).name is None,
        },
{
    let none = Seq::<(Seq<char>, FileAttributes)>::empty();
    lemma_host_listing(none, entries);
    assert(none + named_entries(entries) =~= named_entries(entries));
    name_map::lemma_collected(named_entries(entries));
}

/// The name and attributes of each entry.
pub open spec fn entry_views(entries: Seq<DirEntry>) -> Seq<(Seq<char>, FileAttributes)> {
    entries.map_values(
        |e: DirEntry| (e.name@, FileAttributes { size: e.size, is_dir: e.is_dir }),
    )
}

/// A device listing, by name.
pub fn device_entries(entries: &Vec<DirEntry>) -> (r: NameMap<FileAttributes>)
    ensures
        r.pairs() == name_map::collected(entry_views(entries@)),
        r@ == name_map::collected_map(entry_views(entries@)),
        name_map::distinct_names(r.pairs()),
{
    let mut r: NameMap<FileAttributes> = NameMap::new();
    let ghost all = entry_views(entries@);
    let mut i: usize = 0;
    assert(all.take(0) =~= Seq::empty());
    while i < entries.len()
        invariant
            i <= entries@.len(),
            all == entry_views(entries@),
            r.pairs() == name_map::collected(all.take(i as int)),
            r@ == name_map::collected_map(all.take(i as int)),
            name_map::distinct_names(r.pairs()),
        decreases entries@.len() - i,
    {
        let e = &entries[i];
        assert(all.take(i + 1).drop_last() =~= all.take(i as int));
        assert(all.take(i + 1).last() == all[i as int]);
        r.insert(e.name.clone(), FileAttributes { size: e.size, is_dir: e.is_dir });
        i = i + 1;
    }
    assert(all.take(i as int) =~= all);
    r
}

/// What a line of a textual listing says, if it is one: the kind of the entry, its
/// size, a time and its name. Words after the name are ignored.
pub open spec fn read_dir_line(line: Seq<char>) -> Option<(Seq<char>, FileAttributes)> {
    let w = text::words(line);
    if w.len() < 4 {
        None
    } else {
        match text::parsed_u64(w[1]) {
            Some(size) => Some((w[3], FileAttributes { size, is_dir: w[0] == "d"@ })),
            None => None,
        }
    }
}

/// Reads a line of a textual listing.
pub fn process_read_dir_line(line: &str) -> (r: Option<(String, FileAttributes)>)
    ensures
        match read_dir_line(line@) {
            Some((name, attr)) => r matches Some((n, a)) && n@ == name && a == attr,
            None => r is None,
        },
{
    let w = words_of(line);
    assert(w@.len() == text::words(line@).len());
    assert forall|i: int| 0 <= i < w@.len() implies (#[trigger] w@[i])@ == text::words(line@)[i] by {
        assert(text::views(w@)[i] == w@[i]@);
    }
    if w.len() < 4 {
        return None;
    }
    let is_dir = str_eq(w[0].as_str(), "d");
    match parse_u64(w[1].as_str()) {
        Some(size) => Some((w[3].clone(), FileAttributes { size, is_dir })),
        None => None,
    }
}

/// The entries that the lines of a textual listing add to those before. The listing
/// ends with the lines, or before a line that begins with `total`; a line before that
/// which is not an entry is an error.
pub open spec fn read_dir_lines(
    lines: Seq<Seq<char>>,
    before: Seq<(Seq<char>, FileAttributes)>,
) -> Result<Seq<(Seq<char>, FileAttributes)>, Seq<char>>
    decreases lines.len(),
{
    if lines.len() == 0 || "total"@.is_prefix_of(lines.first()) {
        Ok(before)
    } else {
        match read_dir_line(lines.first()) {
            Some((name, attr)) => read_dir_lines(
                lines.drop_first(),
                name_map::with_pair(before, name, attr),
            ),
            None => Err(lines.first()),
        }
    }
}

/// Reads a textual listing. A line that is not an entry is handed back.
pub fn parse_read_dir(listing: &str) -> (r: Result<NameMap<FileAttributes>, String>)
    ensures
        match read_dir_lines(text::lines(listing@), Seq::empty()) {
            Ok(pairs) => r matches Ok(m) && m.pairs() == pairs,
            Err(line) => r matches Err(l) && l@ == line,
        },
{
    let lines = lines_of(listing);
    let ghost all = text::lines(listing@);
    let mut m: NameMap<FileAttributes> = NameMap::new();
    let mut i: usize = 0;
    assert(all.skip(0) =~= all);
    while i < lines.len()
        invariant
            i <= lines@.len(),
            all == text::lines(listing@),
            text::views(lines@) == all,
            read_dir_lines(all, Seq::empty()) == read_dir_lines(all.skip(i as int), m.pairs()),
        decreases lines@.len() - i,
    {
        let ghost rest = all.skip(i as int);
        assert(text::views(lines@)[i as int] == lines@[i as int]@);
        assert(rest.first() == lines@[i as int]@);
        assert(rest.drop_first() =~= all.skip(i + 1));
        if starts_with(lines[i].as_str(), "total") {
            return Ok(m);
        }
        match process_read_dir_line(lines[i].as_str()) {
            Some((name, attr)) => {
                m.insert(name, attr);
            },
            None => {
                return Err(lines[i].clone());
            },
        }
        i = i + 1;
    }
    Ok(m)
}

/// Whether `w` is one word.
pub open spec fn is_word(w: Seq<char>) -> bool {
    w.len() > 0 && forall|i: int| 0 <= i < w.len() ==> !text::is_ascii_blank(#[trigger] w[i])
}

/// A word before a space is the first of the words.
proof fn lemma_words_cons(w: Seq<char>, rest: Seq<char>)
    requires
        is_word(w),
    ensures
        text::words(w + " "@ + rest) == seq![w] + text::words(rest),
{
    reveal_strlit(" ");
    let s = w + " "@ + rest;
    assert(s[w.len() as int] == ' ');
    assert forall|i: int| 0 <= i < w.len() implies !text::is_ascii_blank(#[trigger] s[i]) by {
        assert(s[i] == w[i]);
    }
    text::lemma_word_len_is(s, w.len());
    assert(s.first() == w[0]);
    assert(s.take(w.len() as int) =~= w);
    let tail = s.skip(w.len() as int);
    assert(tail.first() == ' ');
    assert(tail.drop_first() =~= rest);
    assert(text::words(tail) == text::words(rest));
    assert(!text::is_ascii_blank(w[0]));
    assert(text::words(s) == seq![s.take(w.len() as int)] + text::words(tail));
}

/// A word alone is the only one of the words.
proof fn lemma_words_one(w: Seq<char>)
    requires
        is_word(w),
    ensures
        text::words(w) == seq![w],
{
    text::lemma_word_len_is(w, w.len());
    assert(w.first() == w[0]);
    assert(w.take(w.len() as int) =~= w);
    assert(text::words(w.skip(w.len() as int)) =~= Seq::empty());
    assert(text::words(w) =~= seq![w]);
}

/// An entry that is written in the form of the listing is read back as it was, if
/// its name is one word.
pub proof fn law_listing_line_reads_back(
    name: Seq<char>,
    attr: FileAttributes,
    kind: Seq<char>,
    time: Seq<char>,
)
    requires
        is_word(name),
        is_word(kind),
        is_word(time),
        attr.is_dir == (kind == "d"@),
    ensures
        read_dir_line(
            kind + " "@ + (text::decimal(attr.size as nat) + " "@ + (time + " "@ + name)),
        ) == Some((name, attr)),
{
    let size = text::decimal(attr.size as nat);
    text::lemma_decimal_round_trip(attr.size as nat);
    text::lemma_decimal_digits(attr.size as nat);
    assert(is_word(size));
    lemma_words_one(name);
    lemma_words_cons(time, name);
    lemma_words_cons(size, time + " "@ + name);
    lemma_words_cons(kind, size + " "@ + (time + " "@ + name));
    let w = text::words(kind + " "@ + (size + " "@ + (time + " "@ + name)));
    assert(w =~= seq![kind, size, time, name]);
}

/// What stands after the line that begins with `total` is ignored.
pub proof fn law_listing_ends_at_total(
    lines: Seq<Seq<char>>,
    total: Seq<char>,
    ignored: Seq<Seq<char>>,
    before: Seq<(Seq<char>, FileAttributes)>,
)
    requires
        "total"@.is_prefix_of(total),
    ensures
        read_dir_lines(lines.push(total) + ignored, before) == read_dir_lines(lines, before),
    decreases lines.len(),
{
    let all = lines.push(total) + ignored;
    if lines.len() == 0 {
        assert(all.first() == total);
    } else {
        assert(all.first() == lines.first());
        assert(all.drop_first() =~= lines.drop_first().push(total) + ignored);
        if let Some((name, attr)) = read_dir_line(lines.first()) {
            law_listing_ends_at_total(
                lines.drop_first(),
                total,
                ignored,
                name_map::with_pair(before, name, attr),
            );
        }
    }
}

} // verus!

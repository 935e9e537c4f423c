use vstd::prelude::*;
use crate::text::{
    is_ws, lemma_lines_no_newline, lemma_lines_of_joined, lemma_replace_char, lemma_trim_push_ws,
    lemma_trim_unchanged, no_newline, strip_cr, chars_eq, chars_eq_ignore_case, chars_of, concat_chars, eq_ignore_case, join, join_chars,
    lines_chars, lines_of, lowercase_chars, replace_all, replace_chars, string_of, trim,
    trim_chars, unicode_lowercase, views,
};

verus! {

/// The line that registers a data file in a main INI file: `+=` and the path,
/// with `/` as separator.
pub open spec fn entry_line(rel: Seq<char>) -> Seq<char> {
    seq!['+', '='] + replace_all(rel, seq!['\\'], seq!['/'])
}

/// The section header under which entries are registered.
pub open spec fn entries_header() -> Seq<char> {
    seq!['[', '#', 'i', 'n', 'c', 'l', 'u', 'd', 'e', ']']
}

/// Is this line the given entry (compared trimmed and lower-cased)?
pub open spec fn line_is_entry(line: Seq<char>, entry: Seq<char>) -> bool {
    unicode_lowercase(trim(line)) == unicode_lowercase(entry)
}

pub open spec fn has_entry(lines: Seq<Seq<char>>, entry: Seq<char>) -> bool {
    exists|k: int| 0 <= k < lines.len() && line_is_entry(#[trigger] lines[k], entry)
}

pub open spec fn is_entries_header(line: Seq<char>) -> bool {
    eq_ignore_case(trim(line), entries_header())
}

/// A line that opens an INI section: trimmed, it starts with `[` and ends with `]`.
pub open spec fn is_section_header(line: Seq<char>) -> bool {
    let t = trim(line);
    t.len() > 0 && t[0] == '[' && t.last() == ']'
}

/// The first entries header at or after `start`.
pub open spec fn entries_header_from(lines: Seq<Seq<char>>, start: int) -> Option<int>
    decreases lines.len() - start,
{
    if start < 0 || start >= lines.len() {
        None
    } else if is_entries_header(lines[start]) {
        Some(start)
    } else {
        entries_header_from(lines, start + 1)
    }
}

/// The first section header at or after `start`, or the number of lines.
pub open spec fn section_end_from(lines: Seq<Seq<char>>, start: int) -> int
    decreases lines.len() - start,
{
    if start < 0 || start >= lines.len() {
        lines.len() as int
    } else if is_section_header(lines[start]) {
        start
    } else {
        section_end_from(lines, start + 1)
    }
}

/// The lines with the entry added: at the end of the entries section, or, where there
/// is none, in a new entries section at the end (after an empty line unless the last
/// line is already empty).
pub open spec fn lines_with_entry(lines: Seq<Seq<char>>, entry: Seq<char>) -> Seq<Seq<char>> {
    match entries_header_from(lines, 0) {
        Some(i) => lines.insert(section_end_from(lines, i + 1), entry),
        None => {
            let base = if lines.len() > 0 && lines.last().len() > 0 {
                lines.push(Seq::<char>::empty())
            } else {
                lines
            };
            base.push(entries_header()).push(entry)
        },
    }
}

/// The text with a final line feed.
pub open spec fn with_final_newline(out: Seq<char>) -> Seq<char> {
    if out.len() > 0 && out.last() == '\n' {
        out
    } else {
        out.push('\n')
    }
}

/// What `ensure_include_entry` gives: `None` when the entry is already registered
/// (nothing to write), else the new text of the main INI file.
pub open spec fn ensure_entry_spec(content: Seq<char>, rel: Seq<char>) -> Option<Seq<char>> {
    let lines = lines_of(content);
    let entry = entry_line(rel);
    if has_entry(lines, entry) {
        None
    } else {
        Some(with_final_newline(join(lines_with_entry(lines, entry), seq!['\n'])))
    }
}

/// The lines that are not the entry.
pub open spec fn lines_without_entry(lines: Seq<Seq<char>>, entry: Seq<char>) -> Seq<Seq<char>>
    decreases lines.len(),
{
    if lines.len() == 0 {
        lines
    } else {
        let rest = lines_without_entry(lines.drop_last(), entry);
        if line_is_entry(lines.last(), entry) {
            rest
        } else {
            rest.push(lines.last())
        }
    }
}

/// What `remove_include_entry` gives: the text without the entry's lines, ending with
/// a line feed unless it is empty.
pub open spec fn remove_entry_spec(content: Seq<char>, rel: Seq<char>) -> Seq<char> {
    let next = join(lines_without_entry(lines_of(content), entry_line(rel)), seq!['\n']);
    if next.len() > 0 && next.last() != '\n' {
        next.push('\n')
    } else {
        next
    }
}

fn entry_line_chars(rel: &Vec<char>) -> (r: Vec<char>)
    ensures
        r@ == entry_line(rel@),
{
    let from = vec!['\\'];
    let to = vec!['/'];
    assert(from@ =~= seq!['\\']);
    assert(to@ =~= seq!['/']);
    let replaced = replace_chars(rel, &from, &to);
    let head = vec!['+', '='];
    assert(head@ =~= seq!['+', '=']);
    concat_chars(&head, &replaced)
}

fn line_is_entry_exec(line: &Vec<char>, entry_lower: &Vec<char>, Ghost(entry): Ghost<Seq<char>>) -> (r:
    bool)
    requires
        entry_lower@ == unicode_lowercase(entry),
    ensures
        r == line_is_entry(line@, entry),
{
    let t = trim_chars(line);
    let lower = lowercase_chars(&t);
    chars_eq(&lower, entry_lower)
}

fn is_section_header_exec(line: &Vec<char>) -> (r: bool)
    ensures
        r == is_section_header(line@),
{
    let t = trim_chars(line);
    t.len() > 0 && t[0] == '[' && t[t.len() - 1] == ']'
}

/// `ensure_include_entry`: the new text of a main INI file so that it registers the
/// data file at `include_rel_path`, or `None` when it already does.
pub fn ensure_include_entry(content: &str, include_rel_path: &str) -> (r: Option<String>)
    ensures
        match r {
            Some(s) => ensure_entry_spec(content@, include_rel_path@) == Some(s@),
            None => ensure_entry_spec(content@, include_rel_path@) is None,
        },
{
    let text = chars_of(content);
    let rel = chars_of(include_rel_path);
    let entry = entry_line_chars(&rel);
    let entry_lower = lowercase_chars(&entry);
    let mut lines = lines_chars(&text);
    let ghost l0 = views(lines@);
    let mut i: usize = 0;
    while i < lines.len()
        invariant
            i <= lines.len(),
            views(lines@) == l0,
            l0 == lines_of(content@),
            entry@ == entry_line(include_rel_path@),
            entry_lower@ == unicode_lowercase(entry@),
            forall|k: int| 0 <= k < i ==> !line_is_entry(#[trigger] l0[k], entry@),
        decreases lines.len() - i,
    {
        assert(l0[i as int] == lines@[i as int]@);
        if line_is_entry_exec(&lines[i], &entry_lower, Ghost(entry@)) {
            assert(line_is_entry(l0[i as int], entry@));
            assert(has_entry(l0, entry@));
            assert(l0 == lines_of(content@));
            assert(entry@ == entry_line(include_rel_path@));
            assert(ensure_entry_spec(content@, include_rel_path@) is None);
            return None;
        }
        i = i + 1;
    }
    assert(!has_entry(l0, entry@));
    let header = vec!['[', '#', 'i', 'n', 'c', 'l', 'u', 'd', 'e', ']'];
    assert(header@ == entries_header());
    let mut h: usize = 0;
    let mut found = false;
    while h < lines.len()
        invariant_except_break
            !found,
        invariant
            h <= lines.len(),
            views(lines@) == l0,
            header@ == entries_header(),
            entries_header_from(l0, 0) == entries_header_from(l0, h as int),
        ensures
            found ==> h < lines.len() && entries_header_from(l0, 0) == Some(h as int),
            !found ==> entries_header_from(l0, 0) is None,
        decreases lines.len() - h,
    {
        assert(l0[h as int] == lines@[h as int]@);
        let t = trim_chars(&lines[h]);
        if chars_eq_ignore_case(&t, &header) {
            found = true;
            break;
        }
        h = h + 1;
    }
    assert(entries_header_from(l0, lines.len() as int) is None);
    if found {
        assert(entries_header_from(l0, 0) == Some(h as int));
        let mut e: usize = h + 1;
        while e < lines.len()
            invariant
                h < e <= lines.len(),
                views(lines@) == l0,
                section_end_from(l0, (h + 1) as int) == section_end_from(l0, e as int),
            ensures
                h < e <= lines.len(),
                section_end_from(l0, (h + 1) as int) == e as int,
            decreases lines.len() - e,
        {
            assert(l0[e as int] == lines@[e as int]@);
            if is_section_header_exec(&lines[e]) {
                break;
            }
            e = e + 1;
        }
        assert(section_end_from(l0, (h + 1) as int) == e as int);
        let ghost before = lines@;
        lines.insert(e, entry);
        assert(views(lines@) =~= l0.insert(e as int, entry@));
    } else {
        assert(entries_header_from(l0, 0) is None);
        let n = lines.len();
        if n > 0 && lines[n - 1].len() > 0 {
            lines.push(Vec::new());
        }
        lines.push(header);
        lines.push(entry);
        assert(views(lines@) =~= lines_with_entry(l0, entry@));
    }
    let sep = vec!['\n'];
    assert(sep@ =~= seq!['\n']);
    let mut out = join_chars(&lines, &sep);
    if !(out.len() > 0 && out[out.len() - 1] == '\n') {
        out.push('\n');
    }
    Some(string_of(out.as_slice()))
}

/// `remove_include_entry`: the text of a main INI file without the lines that register
/// the data file at `include_rel_path`.
pub fn remove_include_entry(content: &str, include_rel_path: &str) -> (r: String)
    ensures
        r@ == remove_entry_spec(content@, include_rel_path@),
{
    let text = chars_of(content);
    let rel = chars_of(include_rel_path);
    let entry = entry_line_chars(&rel);
    let entry_lower = lowercase_chars(&entry);
    let lines = lines_chars(&text);
    let ghost l0 = views(lines@);
    let mut kept: Vec<Vec<char>> = Vec::new();
    let mut i: usize = 0;
    assert(l0.take(0) =~= Seq::<Seq<char>>::empty());
    while i < lines.len()
        invariant
            i <= lines.len(),
            views(lines@) == l0,
            entry_lower@ == unicode_lowercase(entry@),
            views(kept@) == lines_without_entry(l0.take(i as int), entry@),
        decreases lines.len() - i,
    {
        assert(l0.take(i + 1).drop_last() =~= l0.take(i as int));
        assert(l0[i as int] == lines@[i as int]@);
        assert(l0.take(i + 1).last() == l0[i as int]);
        if !line_is_entry_exec(&lines[i], &entry_lower, Ghost(entry@)) {
            let copy = concat_chars(&lines[i], &Vec::new());
            assert(copy@ =~= lines@[i as int]@);
            kept.push(copy);
            assert(views(kept@) =~= lines_without_entry(l0.take(i as int), entry@).push(
                l0[i as int],
            ));
        }
        i = i + 1;
    }
    assert(l0.take(i as int) =~= l0);
    assert(views(kept@) == lines_without_entry(lines_of(content@), entry_line(include_rel_path@)));
    let sep = vec!['\n'];
    assert(sep@ =~= seq!['\n']);
    let mut next = join_chars(&kept, &sep);
    if next.len() > 0 && next[next.len() - 1] != '\n' {
        next.push('\n');
    }
    string_of(next.as_slice())
}


proof fn lemma_join_last(n: Seq<Seq<char>>, sep: Seq<char>)
    requires
        n.len() > 0,
    ensures
        n.len() >= 2 ==> join(n, sep) == join(n.drop_last(), sep) + sep + n.last(),
        n.last().len() > 0 ==> join(n, sep).len() > 0 && join(n, sep).last() == n.last().last(),
{
    if n.len() == 1 {
        assert(n[0] == n.last());
    }
}

proof fn lemma_entries_header_from(lines: Seq<Seq<char>>, start: int)
    ensures
        entries_header_from(lines, start) matches Some(i) ==> 0 <= start <= i < lines.len(),
    decreases lines.len() - start,
{
    if 0 <= start < lines.len() {
        lemma_entries_header_from(lines, start + 1);
    }
}

proof fn lemma_section_end_from(lines: Seq<Seq<char>>, start: int)
    requires
        0 <= start <= lines.len(),
    ensures
        start <= section_end_from(lines, start) <= lines.len(),
    decreases lines.len() - start,
{
    if start < lines.len() {
        lemma_section_end_from(lines, start + 1);
    }
}

proof fn lemma_entry_line_shape(rel: Seq<char>)
    requires
        no_newline(rel),
        rel.len() == 0 || !is_ws(rel.last()),
    ensures
        no_newline(entry_line(rel)),
        entry_line(rel).len() >= 2,
        strip_cr(entry_line(rel)) == entry_line(rel),
        line_is_entry(entry_line(rel), entry_line(rel)),
{
    lemma_replace_char(rel, '\\', '/');
    let r = replace_all(rel, seq!['\\'], seq!['/']);
    let e = entry_line(rel);
    assert forall|k: int| 0 <= k < e.len() implies e[k] != '\n' by {
        if k >= 2 {
            assert(e[k] == r[k - 2]);
        }
    }
    if rel.len() > 0 {
        assert(e.last() == r[r.len() - 1]);
    }
    assert(!is_ws(e.last()));
    assert(!is_ws(e[0]));
    lemma_trim_unchanged(e);
}

/// The lines of the text `with_final_newline(join(n))`, for lines without line feed.
proof fn lemma_lines_of_finished(n: Seq<Seq<char>>)
    requires
        n.len() > 0,
        forall|k: int| 0 <= k < n.len() ==> no_newline(#[trigger] n[k]),
    ensures
        n.last().len() > 0 ==> lines_of(with_final_newline(join(n, seq!['\n']))) == n.map_values(
            |l: Seq<char>| strip_cr(l),
        ),
        n.last().len() == 0 && n.len() >= 2 ==> lines_of(with_final_newline(join(n, seq!['\n'])))
            == n.drop_last().map_values(|l: Seq<char>| strip_cr(l)),
{
    lemma_join_last(n, seq!['\n']);
    if n.last().len() > 0 {
        assert(n.last()[n.last().len() - 1] != '\n');
        lemma_lines_of_joined(n);
    } else if n.len() >= 2 {
        let d = n.drop_last();
        assert forall|k: int| 0 <= k < d.len() implies no_newline(#[trigger] d[k]) by {
            assert(d[k] == n[k]);
        }
        assert(join(n, seq!['\n']) =~= join(d, seq!['\n']).push('\n'));
        lemma_lines_of_joined(d);
    }
}

/// Law: once `ensure_include_entry` has run (and its text, if any, was written), the
/// main INI file registers the data file, and a second run changes nothing. The path
/// holds no line feed and does not end with whitespace.
pub proof fn law_entry_registered_after_ensure(content: Seq<char>, rel: Seq<char>)
    requires
        no_newline(rel),
        rel.len() == 0 || !is_ws(rel.last()),
    ensures
        ({
            let after = match ensure_entry_spec(content, rel) {
                Some(o) => o,
                None => content,
            };
            &&& has_entry(lines_of(after), entry_line(rel))
            &&& ensure_entry_spec(after, rel) is None
        }),
{
    let l = lines_of(content);
    let e = entry_line(rel);
    lemma_entry_line_shape(rel);
    if !has_entry(l, e) {
        lemma_lines_no_newline(content);
        let n = lines_with_entry(l, e);
        let header = entries_header();
        assert(no_newline(header));
        assert(no_newline(Seq::<char>::empty()));
        let out = with_final_newline(join(n, seq!['\n']));
        match entries_header_from(l, 0) {
            Some(i) => {
                lemma_entries_header_from(l, 0);
                lemma_section_end_from(l, i + 1);
                let j = section_end_from(l, i + 1);
                assert(n == l.insert(j, e));
                assert forall|k: int| 0 <= k < n.len() implies no_newline(#[trigger] n[k]) by {
                    if k < j {
                        assert(n[k] == l[k]);
                    } else if k > j {
                        assert(n[k] == l[k - 1]);
                    }
                }
                assert(n[j] == e);
                lemma_lines_of_finished(n);
                if j < l.len() {
                    assert(n.last() == l.last());
                    if n.last().len() > 0 {
                        assert(lines_of(out)[j] == strip_cr(n[j]));
                    } else {
                        assert(lines_of(out)[j] == strip_cr(n[j]));
                    }
                } else {
                    assert(n.last() == e);
                    assert(lines_of(out)[j] == strip_cr(n[j]));
                }
                assert(line_is_entry(lines_of(out)[j], e));
            },
            None => {
                let base = if l.len() > 0 && l.last().len() > 0 {
                    l.push(Seq::<char>::empty())
                } else {
                    l
                };
                assert(n == base.push(header).push(e));
                assert forall|k: int| 0 <= k < n.len() implies no_newline(#[trigger] n[k]) by {
                    if k < l.len() {
                        assert(n[k] == l[k]);
                    }
                }
                lemma_lines_of_finished(n);
                let p = n.len() - 1;
                assert(lines_of(out)[p] == strip_cr(n[p]));
                assert(line_is_entry(lines_of(out)[p], e));
            },
        }
    }
}

proof fn lemma_lines_without_entry(lines: Seq<Seq<char>>, entry: Seq<char>)
    requires
        forall|k: int| 0 <= k < lines.len() ==> no_newline(#[trigger] lines[k]),
    ensures
        forall|k: int|
            0 <= k < lines_without_entry(lines, entry).len() ==> no_newline(
                #[trigger] lines_without_entry(lines, entry)[k],
            ) && !line_is_entry(lines_without_entry(lines, entry)[k], entry),
    decreases lines.len(),
{
    if lines.len() > 0 {
        let d = lines.drop_last();
        assert forall|k: int| 0 <= k < d.len() implies no_newline(#[trigger] d[k]) by {
            assert(d[k] == lines[k]);
        }
        lemma_lines_without_entry(d, entry);
        assert(no_newline(lines[lines.len() - 1]));
        let rest = lines_without_entry(d, entry);
        let r = lines_without_entry(lines, entry);
        if !line_is_entry(lines.last(), entry) {
            assert(r == rest.push(lines.last()));
            assert forall|k: int| 0 <= k < r.len() implies no_newline(#[trigger] r[k])
                && !line_is_entry(r[k], entry) by {
                if k < rest.len() {
                    assert(r[k] == rest[k]);
                }
            }
        }
    }
}

proof fn lemma_strip_cr_entry(l: Seq<char>, entry: Seq<char>)
    ensures
        line_is_entry(strip_cr(l), entry) == line_is_entry(l, entry),
{
    if l.len() > 0 && l.last() == '\r' {
        assert(l.drop_last().push('\r') =~= l);
        lemma_trim_push_ws(l.drop_last(), '\r');
    }
}

/// Law: after `remove_include_entry`, no line of the main INI file registers the
/// data file.
pub proof fn law_entry_absent_after_remove(content: Seq<char>, rel: Seq<char>)
    ensures
        !has_entry(lines_of(remove_entry_spec(content, rel)), entry_line(rel)),
{
    let e = entry_line(rel);
    let l = lines_of(content);
    lemma_lines_no_newline(content);
    let kept = lines_without_entry(l, e);
    lemma_lines_without_entry(l, e);
    let next = join(kept, seq!['\n']);
    let out = remove_entry_spec(content, rel);
    if kept.len() == 0 {
        assert(out.len() == 0);
        assert(lines_of(out).len() == 0);
    } else {
        lemma_join_last(kept, seq!['\n']);
        if kept.last().len() > 0 {
            assert(kept.last()[kept.last().len() - 1] != '\n');
            assert(out == with_final_newline(next));
            lemma_lines_of_finished(kept);
            assert forall|k: int| 0 <= k < lines_of(out).len() implies !line_is_entry(
                #[trigger] lines_of(out)[k],
                e,
            ) by {
                lemma_strip_cr_entry(kept[k], e);
            }
        } else if kept.len() == 1 {
            assert(next == kept[0]);
            assert(out.len() == 0);
            assert(lines_of(out).len() == 0);
        } else {
            assert(next =~= join(kept.drop_last(), seq!['\n']).push('\n'));
            assert(out == with_final_newline(next));
            lemma_lines_of_finished(kept);
            assert forall|k: int| 0 <= k < lines_of(out).len() implies !line_is_entry(
                #[trigger] lines_of(out)[k],
                e,
            ) by {
                assert(kept.drop_last()[k] == kept[k]);
                lemma_strip_cr_entry(kept[k], e);
            }
        }
    }
}

proof fn lemma_without_entry_keeps(lines: Seq<Seq<char>>, entry: Seq<char>)
    requires
        forall|k: int| 0 <= k < lines.len() ==> !line_is_entry(#[trigger] lines[k], entry),
    ensures
        lines_without_entry(lines, entry) == lines,
    decreases lines.len(),
{
    if lines.len() > 0 {
        let d = lines.drop_last();
        assert forall|k: int| 0 <= k < d.len() implies !line_is_entry(#[trigger] d[k], entry) by {
            assert(d[k] == lines[k]);
        }
        lemma_without_entry_keeps(d, entry);
        assert(!line_is_entry(lines[lines.len() - 1], entry));
        assert(d.push(lines.last()) =~= lines);
    }
}

proof fn lemma_without_inserted_entry(lines: Seq<Seq<char>>, entry: Seq<char>, j: int)
    requires
        0 <= j <= lines.len(),
        line_is_entry(entry, entry),
        forall|k: int| 0 <= k < lines.len() ==> !line_is_entry(#[trigger] lines[k], entry),
    ensures
        lines_without_entry(lines.insert(j, entry), entry) == lines,
    decreases lines.len(),
{
    let n = lines.insert(j, entry);
    if j == lines.len() {
        assert(n.drop_last() =~= lines);
        assert(n.last() == entry);
        lemma_without_entry_keeps(lines, entry);
    } else {
        let d = lines.drop_last();
        assert forall|k: int| 0 <= k < d.len() implies !line_is_entry(#[trigger] d[k], entry) by {
            assert(d[k] == lines[k]);
        }
        lemma_without_inserted_entry(d, entry, j);
        assert(n.drop_last() =~= d.insert(j, entry));
        assert(n.last() == lines.last());
        assert(!line_is_entry(lines[lines.len() - 1], entry));
        assert(d.push(lines.last()) =~= lines);
    }
}

/// Law: in a main INI file that has an entries section and does not register the
/// data file yet, registering it keeps every line and inserts the entry's line
/// among them; removing the entry then gives the file back byte for byte. The
/// file is its lines, each followed by a line feed, the last one not empty and
/// none ending with a carriage return; the path holds no line feed and does not
/// end with whitespace.
pub proof fn law_remove_undoes_ensure(lines: Seq<Seq<char>>, rel: Seq<char>)
    requires
        lines.len() > 0,
        lines.last().len() > 0,
        forall|k: int|
            0 <= k < lines.len() ==> no_newline(#[trigger] lines[k]) && strip_cr(lines[k])
                == lines[k],
        exists|k: int| 0 <= k < lines.len() && is_entries_header(#[trigger] lines[k]),
        !has_entry(lines, entry_line(rel)),
        no_newline(rel),
        rel.len() == 0 || !is_ws(rel.last()),
    ensures
        ({
            let content = join(lines, seq!['\n']).push('\n');
            &&& ensure_entry_spec(content, rel) matches Some(after) && (exists|j: int|
                0 <= j <= lines.len() && lines_of(after) == lines.insert(j, entry_line(rel)))
            &&& remove_entry_spec(ensure_entry_spec(content, rel)->0, rel) == content
        }),
{
    let content = join(lines, seq!['\n']).push('\n');
    let e = entry_line(rel);
    lemma_entry_line_shape(rel);
    lemma_lines_of_joined(lines);
    assert(lines.map_values(|l: Seq<char>| strip_cr(l)) =~= lines);
    assert(lines_of(content) == lines);
    let w = choose|k: int| 0 <= k < lines.len() && is_entries_header(#[trigger] lines[k]);
    lemma_entries_header_some(lines, 0, w);
    let i = entries_header_from(lines, 0)->0;
    lemma_entries_header_from(lines, 0);
    lemma_section_end_from(lines, i + 1);
    let j = section_end_from(lines, i + 1);
    let n = lines.insert(j, e);
    assert(lines_with_entry(lines, e) == n);
    let after = with_final_newline(join(n, seq!['\n']));
    assert(ensure_entry_spec(content, rel) == Some(after));
    assert forall|k: int| 0 <= k < n.len() implies no_newline(#[trigger] n[k]) by {
        if k < j {
            assert(n[k] == lines[k]);
        } else if k > j {
            assert(n[k] == lines[k - 1]);
        }
    }
    if j < lines.len() {
        assert(n.last() == lines.last());
    } else {
        assert(n.last() == e);
    }
    lemma_lines_of_finished(n);
    assert forall|k: int| 0 <= k < n.len() implies strip_cr(#[trigger] n[k]) == n[k] by {
        if k < j {
            assert(n[k] == lines[k]);
        } else if k > j {
            assert(n[k] == lines[k - 1]);
        }
    }
    assert(n.map_values(|l: Seq<char>| strip_cr(l)) =~= n);
    assert(lines_of(after) == n);
    assert forall|k: int| 0 <= k < lines.len() implies !line_is_entry(#[trigger] lines[k], e) by {
        if line_is_entry(lines[k], e) {
            assert(has_entry(lines, e));
        }
    }
    lemma_without_inserted_entry(lines, e, j);
    lemma_join_last(lines, seq!['\n']);
    assert(lines.last()[lines.last().len() - 1] != '\n');
}

/// Whether a new entry would go after every line of the file: there is no
/// entries section, or it runs to the end of the file.
pub open spec fn entry_goes_last(lines: Seq<Seq<char>>) -> bool {
    match entries_header_from(lines, 0) {
        None => true,
        Some(i) => section_end_from(lines, i + 1) == lines.len(),
    }
}

/// Law: registering a data file keeps every line of the main INI file, in order,
/// and puts the added lines (the entry last) at one place among them. The path
/// holds no line feed and does not end with whitespace; no line of the file ends
/// with a carriage return; and the file does not end with an empty line unless
/// the entry goes after every line (else that empty line would be lost).
pub proof fn law_ensure_keeps_lines(content: Seq<char>, rel: Seq<char>)
    requires
        no_newline(rel),
        rel.len() == 0 || !is_ws(rel.last()),
        forall|k: int|
            0 <= k < lines_of(content).len() ==> strip_cr(#[trigger] lines_of(content)[k])
                == lines_of(content)[k],
        lines_of(content).len() == 0 || lines_of(content).last().len() > 0 || entry_goes_last(
            lines_of(content),
        ),
    ensures
        ensure_entry_spec(content, rel) matches Some(after) ==> {
            let l = lines_of(content);
            &&& lines_of(after) == lines_with_entry(l, entry_line(rel))
            &&& exists|j: int, added: Seq<Seq<char>>|
                0 <= j <= l.len() && added.len() > 0 && added.last() == entry_line(rel)
                    && lines_of(after) == l.take(j) + added + l.skip(j)
        },
{
    let l = lines_of(content);
    let e = entry_line(rel);
    lemma_entry_line_shape(rel);
    if !has_entry(l, e) {
        lemma_lines_no_newline(content);
        let n = lines_with_entry(l, e);
        let header = entries_header();
        let out = with_final_newline(join(n, seq!['\n']));
        assert(strip_cr(header) == header);
        assert(strip_cr(Seq::<char>::empty()) == Seq::<char>::empty());
        match entries_header_from(l, 0) {
            Some(i) => {
                lemma_entries_header_from(l, 0);
                lemma_section_end_from(l, i + 1);
                let j = section_end_from(l, i + 1);
                assert(n == l.insert(j, e));
                assert forall|k: int| 0 <= k < n.len() implies no_newline(#[trigger] n[k])
                    && strip_cr(n[k]) == n[k] by {
                    if k < j {
                        assert(n[k] == l[k]);
                    } else if k > j {
                        assert(n[k] == l[k - 1]);
                    }
                }
                if j < l.len() {
                    assert(n.last() == l.last());
                } else {
                    assert(n.last() == e);
                }
                lemma_lines_of_finished(n);
                assert(n.map_values(|x: Seq<char>| strip_cr(x)) =~= n);
                assert(l.take(j) + seq![e] + l.skip(j) =~= n);
            },
            None => {
                let base = if l.len() > 0 && l.last().len() > 0 {
                    l.push(Seq::<char>::empty())
                } else {
                    l
                };
                let added = if l.len() > 0 && l.last().len() > 0 {
                    seq![Seq::<char>::empty(), header, e]
                } else {
                    seq![header, e]
                };
                assert(n == base.push(header).push(e));
                assert(no_newline(header));
                assert(no_newline(Seq::<char>::empty()));
                assert forall|k: int| 0 <= k < n.len() implies no_newline(#[trigger] n[k])
                    && strip_cr(n[k]) == n[k] by {
                    if k < l.len() {
                        assert(n[k] == l[k]);
                    }
                }
                lemma_lines_of_finished(n);
                assert(n.map_values(|x: Seq<char>| strip_cr(x)) =~= n);
                assert(l.take(l.len() as int) + added + l.skip(l.len() as int) =~= n);
            },
        }
    }
}

/// The text once the entries of each path are removed, in order.
pub open spec fn removed_all(content: Seq<char>, paths: Seq<Seq<char>>) -> Seq<char>
    decreases paths.len(),
{
    if paths.len() == 0 {
        content
    } else {
        remove_entry_spec(removed_all(content, paths.drop_last()), paths.last())
    }
}

proof fn lemma_without_entry_from(lines: Seq<Seq<char>>, entry: Seq<char>)
    ensures
        forall|k: int|
            0 <= k < lines_without_entry(lines, entry).len() ==> lines.contains(
                #[trigger] lines_without_entry(lines, entry)[k],
            ),
    decreases lines.len(),
{
    if lines.len() > 0 {
        let d = lines.drop_last();
        lemma_without_entry_from(d, entry);
        let rest = lines_without_entry(d, entry);
        let r = lines_without_entry(lines, entry);
        assert forall|k: int| 0 <= k < r.len() implies lines.contains(#[trigger] r[k]) by {
            if k < rest.len() {
                assert(r[k] == rest[k]);
                let w = choose|m: int| 0 <= m < d.len() && d[m] == rest[k];
                assert(lines[w] == d[w]);
            } else {
                assert(r[k] == lines[lines.len() - 1]);
            }
        }
    }
}

/// Removing one path's entries registers nothing that was not registered.
proof fn lemma_remove_keeps_absent(content: Seq<char>, rel: Seq<char>, other: Seq<char>)
    requires
        !has_entry(lines_of(content), other),
    ensures
        !has_entry(lines_of(remove_entry_spec(content, rel)), other),
{
    let e = entry_line(rel);
    let l = lines_of(content);
    lemma_lines_no_newline(content);
    let kept = lines_without_entry(l, e);
    lemma_lines_without_entry(l, e);
    lemma_without_entry_from(l, e);
    let next = join(kept, seq!['\n']);
    let out = remove_entry_spec(content, rel);
    assert forall|k: int| 0 <= k < kept.len() implies !line_is_entry(#[trigger] kept[k], other) by {
        let w = choose|m: int| 0 <= m < l.len() && l[m] == kept[k];
        if line_is_entry(kept[k], other) {
            assert(line_is_entry(l[w], other));
        }
    }
    if kept.len() == 0 {
        assert(lines_of(out).len() == 0);
    } else {
        lemma_join_last(kept, seq!['\n']);
        if kept.last().len() > 0 {
            assert(kept.last()[kept.last().len() - 1] != '\n');
            assert(out == with_final_newline(next));
            lemma_lines_of_finished(kept);
            assert forall|k: int| 0 <= k < lines_of(out).len() implies !line_is_entry(
                #[trigger] lines_of(out)[k],
                other,
            ) by {
                lemma_strip_cr_entry(kept[k], other);
            }
        } else if kept.len() == 1 {
            assert(next == kept[0]);
            assert(lines_of(out).len() == 0);
        } else {
            assert(next =~= join(kept.drop_last(), seq!['\n']).push('\n'));
            assert(out == with_final_newline(next));
            lemma_lines_of_finished(kept);
            assert forall|k: int| 0 <= k < lines_of(out).len() implies !line_is_entry(
                #[trigger] lines_of(out)[k],
                other,
            ) by {
                assert(kept.drop_last()[k] == kept[k]);
                lemma_strip_cr_entry(kept[k], other);
            }
        }
    }
}

/// Law: once the entries of several paths are removed one after the other, none
/// of those paths is registered any more, whatever the file held before.
pub proof fn law_removed_entries_stay_absent(content: Seq<char>, paths: Seq<Seq<char>>)
    ensures
        forall|k: int|
            0 <= k < paths.len() ==> !has_entry(
                lines_of(removed_all(content, paths)),
                entry_line(#[trigger] paths[k]),
            ),
    decreases paths.len(),
{
    if paths.len() > 0 {
        let d = paths.drop_last();
        law_removed_entries_stay_absent(content, d);
        let before = removed_all(content, d);
        law_entry_absent_after_remove(before, paths.last());
        assert forall|k: int| 0 <= k < paths.len() implies !has_entry(
            lines_of(removed_all(content, paths)),
            entry_line(#[trigger] paths[k]),
        ) by {
            if k < d.len() {
                assert(paths[k] == d[k]);
                lemma_remove_keeps_absent(before, paths.last(), entry_line(d[k]));
            }
        }
    }
}

proof fn lemma_entries_header_some(lines: Seq<Seq<char>>, start: int, w: int)
    requires
        0 <= start <= w < lines.len(),
        is_entries_header(lines[w]),
    ensures
        entries_header_from(lines, start) is Some,
    decreases w - start,
{
    if !is_entries_header(lines[start]) {
        lemma_entries_header_some(lines, start + 1, w);
    }
}

} // verus!

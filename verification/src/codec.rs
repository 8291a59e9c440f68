//! The checklist codec: the line-oriented persisted document format.
//!
//! A document is split on `'\n'`. A line is a todo record iff it starts with
//! `- [`; character 3 decides completion (`x` means complete), and the text is
//! everything from character 6 on, empty when the line is shorter. Every other
//! line, the `# TODO` header and the blank separators included, is skipped.
//! Serialization writes the header, then a blank line and one record line per
//! item.

use vstd::prelude::*;

use crate::item::{Item, ItemModel};
use crate::store::Store;

verus! {

/// Whether a line is a todo record: it starts with the marker `- [`.
pub open spec fn is_record_line(line: Seq<char>) -> bool {
    line.len() >= 3 && line[0] == '-' && line[1] == ' ' && line[2] == '['
}

/// Completion flag carried by a record line: character 3 is `x`.
pub open spec fn line_complete(line: Seq<char>) -> bool {
    line.len() > 3 && line[3] == 'x'
}

/// Text carried by a record line: everything from character 6 on; a shorter
/// line degrades to empty text rather than failing.
pub open spec fn line_text(line: Seq<char>) -> Seq<char> {
    if line.len() >= 6 {
        line.subrange(6, line.len() as int)
    } else {
        Seq::<char>::empty()
    }
}

/// The items a single line contributes: one for a record line, none otherwise.
pub open spec fn line_items(line: Seq<char>) -> Seq<ItemModel> {
    if is_record_line(line) {
        seq![ItemModel { text: line_text(line), complete: line_complete(line) }]
    } else {
        Seq::<ItemModel>::empty()
    }
}

/// Position of the first `'\n'` in `s`, or `s.len()` when there is none.
pub open spec fn first_newline(s: Seq<char>) -> nat
    decreases s.len(),
{
    if s.len() == 0 {
        0
    } else if s[0] == '\n' {
        0
    } else {
        1 + first_newline(s.drop_first())
    }
}

/// What parsing a document yields: the records of its lines, in order.
pub open spec fn parse_spec(s: Seq<char>) -> Seq<ItemModel>
    decreases s.len(),
{
    let n = first_newline(s);
    if n >= s.len() {
        line_items(s)
    } else {
        line_items(s.subrange(0, n as int)) + parse_spec(s.subrange(n as int + 1, s.len() as int))
    }
}

/// The fixed header line of a serialized document.
pub open spec fn header() -> Seq<char> {
    seq!['#', ' ', 'T', 'O', 'D', 'O']
}

/// The record line for one item, without the leading newline.
pub open spec fn record_line(m: ItemModel) -> Seq<char> {
    seq!['-', ' ', '[', if m.complete { 'x' } else { ' ' }, ']', ' '] + m.text
}

/// The serialized lines after the header: a blank line, then a record line,
/// for each item in turn.
pub open spec fn body_spec(items: Seq<ItemModel>) -> Seq<char>
    decreases items.len(),
{
    if items.len() == 0 {
        Seq::<char>::empty()
    } else {
        seq!['\n', '\n'] + record_line(items[0]) + body_spec(items.drop_first())
    }
}

/// What serializing a store yields: the header followed by the body.
pub open spec fn serialize_spec(items: Seq<ItemModel>) -> Seq<char> {
    header() + body_spec(items)
}

/// Whether a text can sit on a record line: it holds no newline.
pub open spec fn no_newline(t: Seq<char>) -> bool {
    forall|i: int| 0 <= i < t.len() ==> t[i] != '\n'
}

/// Whether every item text in the sequence is a single line.
pub open spec fn all_single_line(items: Seq<ItemModel>) -> bool {
    forall|i: int| 0 <= i < items.len() ==> no_newline(#[trigger] items[i].text)
}

/// `first_newline` is pinned by its characterization: no newline before `k`,
/// and either `k` is the end or a newline stands at `k`.
proof fn lemma_first_newline_of(s: Seq<char>, k: int)
    requires
        0 <= k <= s.len(),
        forall|i: int| 0 <= i < k ==> s[i] != '\n',
        k == s.len() || s[k] == '\n',
    ensures
        first_newline(s) == k,
    decreases s.len(),
{
    if k == 0 {
        if s.len() > 0 {
            assert(s[0] == '\n');
        }
    } else {
        assert(s[0] != '\n');
        let t = s.drop_first();
        assert forall|i: int| 0 <= i < k - 1 implies t[i] != '\n' by {
            assert(t[i] == s[i + 1]);
        }
        if k < s.len() {
            assert(t[k - 1] == s[k]);
        }
        lemma_first_newline_of(t, k - 1);
    }
}

/// Serializes the store into the persisted document format.
pub fn serialize(store: &Store) -> (doc: String)
    ensures
        doc@ == serialize_spec(store@),
{
    let mut doc: String = String::from_str("# TODO");
    proof {
        reveal_strlit("# TODO");
        assert(doc@ =~= header());
        assert(store@.subrange(0, 0) =~= Seq::<ItemModel>::empty());
        assert(doc@ =~= header() + body_spec(store@.subrange(0, 0)));
    }
    let n = store.len();
    let mut i: usize = 0;
    while i < n
        invariant
            n == store@.len(),
            0 <= i <= n,
            doc@ == header() + body_spec(store@.subrange(0, i as int)),
        decreases n - i,
    {
        let it = store.get(i);
        doc.append("\n\n- [");
        if it.complete {
            doc.append("x");
        } else {
            doc.append(" ");
        }
        doc.append("] ");
        doc.append(it.text.as_str());
        proof {
            reveal_strlit("\n\n- [");
            reveal_strlit("x");
            reveal_strlit(" ");
            reveal_strlit("] ");
            let m = store@[i as int];
            assert(doc@ =~= header() + body_spec(store@.subrange(0, i as int)) + (seq!['\n', '\n']
                + record_line(m)));
            lemma_body_snoc(store@.subrange(0, i as int), m);
            assert(store@.subrange(0, i as int).push(m) =~= store@.subrange(0, i + 1));
            assert(doc@ =~= header() + body_spec(store@.subrange(0, i + 1)));
        }
        i = i + 1;
    }
    proof {
        assert(store@.subrange(0, n as int) =~= store@);
    }
    doc
}

/// Appending one item to a sequence appends its blank line and record line to
/// the body.
proof fn lemma_body_snoc(items: Seq<ItemModel>, m: ItemModel)
    ensures
        body_spec(items.push(m)) == body_spec(items) + (seq!['\n', '\n'] + record_line(m)),
    decreases items.len(),
{
    if items.len() == 0 {
        assert(items =~= Seq::<ItemModel>::empty());
        assert(items.push(m)[0] == m);
        assert(items.push(m).drop_first() =~= Seq::<ItemModel>::empty());
        assert(body_spec(items.push(m)) == seq!['\n', '\n'] + record_line(m) + body_spec(
            Seq::<ItemModel>::empty(),
        ));
        assert(body_spec(items.push(m)) =~= body_spec(items) + (seq!['\n', '\n'] + record_line(m)));
    } else {
        assert(items.push(m)[0] == items[0]);
        assert(items.push(m).drop_first() =~= items.drop_first().push(m));
        lemma_body_snoc(items.drop_first(), m);
        assert(body_spec(items.push(m)) == seq!['\n', '\n'] + record_line(items[0]) + body_spec(
            items.drop_first().push(m),
        ));
        assert(body_spec(items) == seq!['\n', '\n'] + record_line(items[0]) + body_spec(
            items.drop_first(),
        ));
        assert(body_spec(items.push(m)) =~= body_spec(items) + (seq!['\n', '\n'] + record_line(m)));
    }
}

/// Reads one line as a todo record, if it is one.
fn line_record(line: &str) -> (r: Option<Item>)
    ensures
        match r {
            Some(it) => line_items(line@) == seq![it@],
            None => line_items(line@) == Seq::<ItemModel>::empty(),
        },
{
    let n = line.unicode_len();
    if n >= 3 && line.get_char(0) == '-' && line.get_char(1) == ' ' && line.get_char(2) == '[' {
        let complete = n > 3 && line.get_char(3) == 'x';
        let text: String = if n >= 6 {
            line.substring_char(6, n).to_owned()
        } else {
            String::new()
        };
        let it = Item::new(text, complete);
        proof {
            assert(it@ == (ItemModel { text: line_text(line@), complete: line_complete(line@) }));
        }
        Some(it)
    } else {
        None
    }
}

/// Parses a persisted document into a store: one item per record line, every
/// other line skipped.
pub fn parse(doc: &str) -> (store: Store)
    ensures
        store@ == parse_spec(doc@),
{
    let n = doc.unicode_len();
    let mut store = Store::new();
    let mut start: usize = 0;
    let mut j: usize = 0;
    proof {
        assert(doc@.subrange(0, n as int) =~= doc@);
        assert(store@ + parse_spec(doc@) =~= parse_spec(doc@));
    }
    loop
        invariant_except_break
            n == doc@.len(),
            0 <= start <= j <= n,
            forall|i: int| start <= i < j ==> doc@[i] != '\n',
            store@ + parse_spec(doc@.subrange(start as int, n as int)) == parse_spec(doc@),
        ensures
            store@ == parse_spec(doc@),
        decreases n - j,
    {
        if j < n && doc.get_char(j) != '\n' {
            j = j + 1;
        } else {
            // The current line runs from `start` to `j`.
            let ghost suffix = doc@.subrange(start as int, n as int);
            proof {
                assert forall|i: int| 0 <= i < j - start implies suffix[i] != '\n' by {
                    assert(suffix[i] == doc@[start + i]);
                }
                if j < n {
                    assert(suffix[j - start] == doc@[j as int]);
                }
                lemma_first_newline_of(suffix, j - start);
                assert(suffix.subrange(0, j - start) =~= doc@.subrange(start as int, j as int));
            }
            let line = doc.substring_char(start, j);
            let rec = line_record(line);
            match rec {
                Some(it) => {
                    let ghost store_pre = store@;
                    store.append(it);
                    proof {
                        assert(store@ =~= store_pre + line_items(line@));
                    }
                },
                None => {
                    proof {
                        assert(store@ =~= store@ + line_items(line@));
                    }
                },
            }
            if j == n {
                proof {
                    assert(parse_spec(suffix) == line_items(line@));
                    assert(store@ =~= parse_spec(doc@));
                }
                break;
            }
            proof {
                assert(parse_spec(suffix) == line_items(line@) + parse_spec(
                    suffix.subrange(j - start + 1, suffix.len() as int),
                ));
                assert(suffix.subrange(j - start + 1, suffix.len() as int) =~= doc@.subrange(
                    j + 1,
                    n as int,
                ));
            }
            j = j + 1;
            start = j;
        }
    }
    store
}

/// A record line carries its item faithfully: it is recognized as a record,
/// and it holds no newline when the item's text is a single line.
proof fn lemma_record_line_faithful(m: ItemModel)
    requires
        no_newline(m.text),
    ensures
        no_newline(record_line(m)),
        record_line(m).len() == 6 + m.text.len(),
        line_items(record_line(m)) == seq![m],
{
    let r = record_line(m);
    assert forall|i: int| 0 <= i < r.len() implies r[i] != '\n' by {
        if i >= 6 {
            assert(r[i] == m.text[i - 6]);
        }
    }
    assert(is_record_line(r));
    assert(line_complete(r) == m.complete);
    assert(line_text(r) =~= m.text);
    assert(line_items(r) =~= seq![m]);
}

/// Parsing the serialized lines from the first record line on recovers the
/// items, when every text is a single line.
proof fn lemma_parse_records(items: Seq<ItemModel>)
    requires
        items.len() > 0,
        all_single_line(items),
    ensures
        parse_spec(record_line(items[0]) + body_spec(items.drop_first())) == items,
    decreases items.len(),
{
    let r = record_line(items[0]);
    let rest = items.drop_first();
    lemma_record_line_faithful(items[0]);
    let s = r + body_spec(rest);
    if rest.len() == 0 {
        assert(body_spec(rest) =~= Seq::<char>::empty());
        assert(s =~= r);
        lemma_first_newline_of(s, s.len() as int);
        assert(parse_spec(s) == line_items(s));
        assert(line_items(s) == seq![items[0]]);
        assert(seq![items[0]] =~= items);
    } else {
        assert(s[r.len() as int] == body_spec(rest)[0]);
        assert(body_spec(rest)[0] == '\n');
        assert forall|i: int| 0 <= i < r.len() implies s[i] != '\n' by {
            assert(s[i] == r[i]);
        }
        lemma_first_newline_of(s, r.len() as int);
        assert(s.subrange(0, r.len() as int) =~= r);
        let tail = s.subrange(r.len() as int + 1, s.len() as int);
        // The record line is followed by the next item's blank line, then its
        // record line.
        assert(tail =~= seq!['\n'] + (record_line(rest[0]) + body_spec(rest.drop_first())));
        assert(parse_spec(s) == line_items(r) + parse_spec(tail));
        assert(tail[0] == '\n');
        lemma_first_newline_of(tail, 0);
        assert(parse_spec(tail) == line_items(tail.subrange(0, 0)) + parse_spec(
            tail.subrange(1, tail.len() as int),
        ));
        assert(tail.subrange(0, 0) =~= Seq::<char>::empty());
        assert(!is_record_line(tail.subrange(0, 0)));
        let blank_after = tail.subrange(1, tail.len() as int);
        assert(blank_after =~= record_line(rest[0]) + body_spec(rest.drop_first()));
        assert forall|i: int| 0 <= i < rest.len() implies no_newline(#[trigger] rest[i].text) by {
            assert(rest[i] == items[i + 1]);
        }
        lemma_parse_records(rest);
        assert(parse_spec(blank_after) == rest);
        assert(parse_spec(s) =~= items);
        assert(seq![items[0]] + rest =~= items);
    }
}

/// Round-trip: parsing a serialized store yields exactly the items that were
/// serialized, for any items whose text contains no newline.
pub proof fn lemma_parse_serialize_roundtrip(items: Seq<ItemModel>)
    requires
        all_single_line(items),
    ensures
        parse_spec(serialize_spec(items)) == items,
{
    let s = serialize_spec(items);
    assert forall|i: int| 0 <= i < 6 implies s[i] != '\n' by {
        assert(s[i] == header()[i]);
    }
    if items.len() == 0 {
        assert(s =~= header());
        lemma_first_newline_of(s, 6);
        assert(parse_spec(s) == line_items(s));
        assert(s[0] == '#');
        assert(!is_record_line(s));
        assert(parse_spec(s) =~= items);
    } else {
        assert(s[6] == body_spec(items)[0]);
        assert(body_spec(items)[0] == '\n');
        lemma_first_newline_of(s, 6);
        let head_line = s.subrange(0, 6);
        assert(head_line[0] == '#');
        assert(!is_record_line(head_line));
        let tail = s.subrange(7, s.len() as int);
        // The header's newline ends its line; what follows is the first
        // item's blank line, then its record line.
        assert(tail =~= seq!['\n'] + (record_line(items[0]) + body_spec(items.drop_first())));
        assert(parse_spec(s) == line_items(head_line) + parse_spec(tail));
        assert(tail[0] == '\n');
        lemma_first_newline_of(tail, 0);
        assert(parse_spec(tail) == line_items(tail.subrange(0, 0)) + parse_spec(
            tail.subrange(1, tail.len() as int),
        ));
        assert(tail.subrange(0, 0) =~= Seq::<char>::empty());
        assert(!is_record_line(tail.subrange(0, 0)));
        let after = tail.subrange(1, tail.len() as int);
        assert(after =~= record_line(items[0]) + body_spec(items.drop_first()));
        lemma_parse_records(items);
        assert(parse_spec(after) == items);
        assert(parse_spec(s) =~= items);
    }
}

} // verus!

use vstd::prelude::*;
use vstd::std_specs::iter::IteratorSpec;

verus! {

broadcast use vstd::string::group_string_axioms;

/// The character that separates the fields of a line.
pub const TAB: char = '\t';

/// The reserved marker that opens the identifier of a metafeature row.
pub const MARKER: char = '_';

/// Position of the first tab in `s`, or `s.len()` when there is none.
pub open spec fn first_tab(s: Seq<char>) -> int
    decreases s.len(),
{
    if s.len() == 0 {
        0
    } else if s[0] == TAB {
        0
    } else {
        1 + first_tab(s.drop_first())
    }
}

/// The tab-separated fields of `s`: always at least one, possibly empty.
pub open spec fn split_tabs(s: Seq<char>) -> Seq<Seq<char>>
    decreases s.len(),
{
    let k = first_tab(s);
    if !(0 <= k < s.len()) {
        seq![s]
    } else {
        seq![s.take(k)] + split_tabs(s.skip(k + 1))
    }
}

pub open spec fn is_digit(c: char) -> bool {
    '0' <= c && c <= '9'
}

pub open spec fn digit_value(c: char) -> int {
    c as int - '0' as int
}

pub open spec fn all_digits(s: Seq<char>) -> bool {
    forall|i: int| 0 <= i < s.len() ==> is_digit(#[trigger] s[i])
}

/// The number that a string of decimal digits denotes.
pub open spec fn digits_value(s: Seq<char>) -> int
    decreases s.len(),
{
    if s.len() == 0 {
        0
    } else {
        10 * digits_value(s.drop_last()) + digit_value(s.last())
    }
}

/// The digits of a count field: the field without one leading `+`.
pub open spec fn unsigned_part(f: Seq<char>) -> Seq<char> {
    if f.len() > 0 && f[0] == '+' {
        f.drop_first()
    } else {
        f
    }
}

/// The count that a field holds: one or more decimal digits, optionally
/// after a `+`, denoting a value that fits in 64 bits.
pub open spec fn count_of(f: Seq<char>) -> Option<u64> {
    let d = unsigned_part(f);
    if d.len() > 0 && all_digits(d) && digits_value(d) <= u64::MAX {
        Some(digits_value(d) as u64)
    } else {
        None
    }
}

/// The counts that a sequence of fields holds, when every field holds one.
pub open spec fn counts_of(fields: Seq<Seq<char>>) -> Option<Seq<u64>> {
    if forall|j: int| 0 <= j < fields.len() ==> (#[trigger] count_of(fields[j])) is Some {
        Some(fields.map_values(|f: Seq<char>| count_of(f)->0))
    } else {
        None
    }
}

/// An identifier that carries the reserved two-character marker.
pub open spec fn is_marked(id: Seq<char>) -> bool {
    id.len() >= 2 && id[0] == MARKER && id[1] == MARKER
}

/// A row as the parser sees it.
pub enum RowModel {
    Ordinary { id: Seq<char>, counts: Seq<u64> },
    Metafeature { id: Seq<char>, values: Seq<char> },
    Malformed,
}

/// The text after the first tab of a line (empty when there is no tab).
pub open spec fn values_text(line: Seq<char>) -> Seq<char> {
    let k = first_tab(line);
    if k < line.len() {
        line.skip(k + 1)
    } else {
        Seq::empty()
    }
}

/// How a line is read against a header with `n_samples` samples: a marked
/// identifier makes a metafeature whatever follows it; otherwise the line is
/// an ordinary row when it has exactly `n_samples` count fields that all
/// parse, and malformed when not.
pub open spec fn row_of(line: Seq<char>, n_samples: nat) -> RowModel {
    let fields = split_tabs(line);
    let id = fields[0];
    if is_marked(id) {
        RowModel::Metafeature { id, values: values_text(line) }
    } else {
        let cs = counts_of(fields.drop_first());
        if cs is Some && cs->0.len() == n_samples {
            RowModel::Ordinary { id, counts: cs->0 }
        } else {
            RowModel::Malformed
        }
    }
}

/// A parsed row.
pub enum Row {
    /// A feature row, with one count per sample.
    Ordinary { id: String, counts: Vec<u64> },
    /// A row whose identifier carries the marker; `values` is the text
    /// after the identifier's tab, kept as it stands.
    Metafeature { id: String, values: String },
    /// A row whose fields could not be read as counts for every sample.
    Malformed,
}

impl View for Row {
    type V = RowModel;

    open spec fn view(&self) -> RowModel {
        match self {
            Row::Ordinary { id, counts } => RowModel::Ordinary { id: id@, counts: counts@ },
            Row::Metafeature { id, values } => RowModel::Metafeature { id: id@, values: values@ },
            Row::Malformed => RowModel::Malformed,
        }
    }
}

/// The characters of `s`, in order.
pub fn chars_of(s: &str) -> (r: Vec<char>)
    ensures
        r@ == s@,
{
    let mut out: Vec<char> = Vec::new();
    let mut it = s.chars();
    loop
        invariant
            it.obeys_prophetic_iter_laws(),
            it.decrease() is Some,
            out@ + it.remaining() == s@,
        ensures
            out@ == s@,
        decreases it.decrease()->0,
    {
        match it.next() {
            Some(c) => {
                out.push(c);
            },
            None => {
                assert(out@ + it.remaining() =~= out@);
                break;
            },
        }
    }
    out
}

proof fn lemma_first_tab_at(s: Seq<char>, k: int)
    requires
        0 <= k <= s.len(),
        forall|j: int| 0 <= j < k ==> s[j] != TAB,
        k == s.len() || s[k] == TAB,
    ensures
        first_tab(s) == k,
    decreases s.len(),
{
    if s.len() > 0 && k > 0 {
        assert(s[0] != TAB);
        let t = s.drop_first();
        assert forall|j: int| 0 <= j < k - 1 implies t[j] != TAB by {
            assert(t[j] == s[j + 1]);
        }
        lemma_first_tab_at(t, k - 1);
    }
}

/// Index of the first tab in `chars` at or after `from`, or `chars.len()`.
pub fn find_tab(chars: &Vec<char>, from: usize) -> (k: usize)
    requires
        from <= chars@.len(),
    ensures
        from <= k <= chars@.len(),
        k == from + first_tab(chars@.skip(from as int)),
{
    let mut k = from;
    while k < chars.len() && chars[k] != TAB
        invariant
            from <= k <= chars@.len(),
            forall|j: int| from <= j < k ==> chars@[j] != TAB,
        decreases chars@.len() - k,
    {
        k = k + 1;
    }
    proof {
        let s = chars@.skip(from as int);
        assert forall|j: int| 0 <= j < k - from implies s[j] != TAB by {
            assert(s[j] == chars@[from + j]);
        }
        lemma_first_tab_at(s, k - from);
    }
    k
}

/// The count held by the field `chars[from..to]`.
pub fn parse_count(chars: &Vec<char>, from: usize, to: usize) -> (r: Option<u64>)
    requires
        from <= to <= chars@.len(),
    ensures
        r == count_of(chars@.subrange(from as int, to as int)),
{
    let ghost f = chars@.subrange(from as int, to as int);
    let start: usize = if from < to && chars[from] == '+' {
        from + 1
    } else {
        from
    };
    assert(unsigned_part(f) =~= chars@.subrange(start as int, to as int));
    let mut value: u64 = 0;
    let mut over = false;
    let mut i = start;
    while i < to
        invariant
            start <= i <= to <= chars@.len(),
            f == chars@.subrange(from as int, to as int),
            unsigned_part(f) == chars@.subrange(start as int, to as int),
            all_digits(chars@.subrange(start as int, i as int)),
            !over ==> value == digits_value(chars@.subrange(start as int, i as int)),
            over ==> digits_value(chars@.subrange(start as int, i as int)) > u64::MAX,
        decreases to - i,
    {
        let ghost p = chars@.subrange(start as int, i as int);
        let ghost q = chars@.subrange(start as int, i + 1);
        assert(q.drop_last() =~= p);
        assert(q.last() == chars@[i as int]);
        let c = chars[i];
        if !('0' <= c && c <= '9') {
            assert(!all_digits(unsigned_part(f))) by {
                assert(unsigned_part(f)[i - start] == c);
            }
            return None;
        }
        let d = (c as u32 - '0' as u32) as u64;
        assert(d as int == digit_value(c));
        if !over {
            if value <= (u64::MAX - d) / 10 {
                value = value * 10 + d;
            } else {
                over = true;
            }
        }
        i = i + 1;
        assert(all_digits(q)) by {
            assert forall|j: int| 0 <= j < q.len() implies is_digit(#[trigger] q[j]) by {
                if j < p.len() {
                    assert(q[j] == p[j]);
                }
            }
        }
    }
    if over || i == start {
        None
    } else {
        Some(value)
    }
}

proof fn lemma_split_step(chars: Seq<char>, pos: int, k: int)
    requires
        0 <= pos <= k <= chars.len(),
        k == pos + first_tab(chars.skip(pos)),
    ensures
        k < chars.len() ==> split_tabs(chars.skip(pos)) == seq![chars.subrange(pos, k)]
            + split_tabs(chars.skip(k + 1)),
        k == chars.len() ==> split_tabs(chars.skip(pos)) == seq![chars.subrange(pos, k)],
{
    let s = chars.skip(pos);
    if k < chars.len() {
        assert(s.take(k - pos) =~= chars.subrange(pos, k));
        assert(s.skip(k - pos + 1) =~= chars.skip(k + 1));
    } else {
        assert(s =~= chars.subrange(pos, k));
    }
}

/// The counts held by the tab-separated fields of `chars[start..]`, when
/// every one of them holds one.
pub fn parse_counts(chars: &Vec<char>, start: usize) -> (r: Option<Vec<u64>>)
    requires
        start <= chars@.len(),
    ensures
        match r {
            Some(v) => counts_of(split_tabs(chars@.skip(start as int))) == Some(v@),
            None => counts_of(split_tabs(chars@.skip(start as int))) is None,
        },
{
    let ghost whole = split_tabs(chars@.skip(start as int));
    let ghost mut done: Seq<Seq<char>> = Seq::empty();
    let mut counts: Vec<u64> = Vec::new();
    let mut pos = start;
    loop
        invariant_except_break
            whole == done + split_tabs(chars@.skip(pos as int)),
        invariant
            start <= pos <= chars@.len(),
            whole == split_tabs(chars@.skip(start as int)),
            counts@.len() == done.len(),
            forall|j: int| 0 <= j < done.len() ==> count_of(#[trigger] done[j]) == Some(counts@[j]),
        ensures
            whole == done,
            counts@.len() == done.len(),
            forall|j: int| 0 <= j < done.len() ==> count_of(#[trigger] done[j]) == Some(counts@[j]),
        decreases chars@.len() - pos,
    {
        let k = find_tab(chars, pos);
        proof {
            lemma_split_step(chars@, pos as int, k as int);
        }
        let ghost field = chars@.subrange(pos as int, k as int);
        match parse_count(chars, pos, k) {
            Some(c) => {
                counts.push(c);
                proof {
                    done = done.push(field);
                }
            },
            None => {
                assert(whole[done.len() as int] == field);
                assert(count_of(whole[done.len() as int]) is None);
                return None;
            },
        }
        if k == chars.len() {
            assert(whole =~= done);
            break;
        }
        assert(whole =~= done + split_tabs(chars@.skip(k + 1)));
        pos = k + 1;
    }
    assert(counts@ =~= whole.map_values(|f: Seq<char>| count_of(f)->0));
    Some(counts)
}

/// Reads one line (without its terminator) against a header with
/// `n_samples` samples.
pub fn parse_row(line: &str, n_samples: usize) -> (r: Row)
    ensures
        r@ == row_of(line@, n_samples as nat),
{
    let chars = chars_of(line);
    let n = chars.len();
    let k = find_tab(&chars, 0);
    proof {
        assert(chars@.skip(0) =~= chars@);
        lemma_split_step(chars@, 0, k as int);
        assert(chars@.subrange(0, k as int) =~= split_tabs(line@)[0]);
    }
    let id = line.substring_char(0, k).to_owned();
    let marked = k >= 2 && chars[0] == MARKER && chars[1] == MARKER;
    if marked {
        let values = if k < n {
            line.substring_char(k + 1, n).to_owned()
        } else {
            String::new()
        };
        return Row::Metafeature { id, values };
    }
    let parsed = if k < n {
        assert(split_tabs(line@).drop_first() =~= split_tabs(chars@.skip(k + 1)));
        parse_counts(&chars, k + 1)
    } else {
        assert(split_tabs(line@).drop_first() =~= Seq::<Seq<char>>::empty());
        assert(counts_of(Seq::<Seq<char>>::empty()) == Some(Seq::<u64>::empty()));
        Some(Vec::new())
    };
    match parsed {
        Some(counts) => {
            if counts.len() == n_samples {
                Row::Ordinary { id, counts }
            } else {
                Row::Malformed
            }
        },
        None => Row::Malformed,
    }
}

/// The sample names of a header line: every field after the first.
pub fn header_names(header: &str) -> (r: Vec<String>)
    ensures
        r@.len() + 1 == split_tabs(header@).len(),
        forall|i: int| 0 <= i < r@.len() ==> #[trigger] r@[i]@ == split_tabs(header@)[i + 1],
{
    let chars = chars_of(header);
    let n = chars.len();
    let k0 = find_tab(&chars, 0);
    proof {
        assert(chars@.skip(0) =~= chars@);
        lemma_split_step(chars@, 0, k0 as int);
    }
    let mut names: Vec<String> = Vec::new();
    if k0 == n {
        return names;
    }
    let ghost whole = split_tabs(chars@.skip(k0 + 1));
    assert(split_tabs(header@) == seq![chars@.subrange(0, k0 as int)] + whole);
    let mut pos = k0 + 1;
    loop
        invariant_except_break
            whole == names@.map_values(|s: String| s@) + split_tabs(chars@.skip(pos as int)),
        invariant
            k0 < pos <= chars@.len() == n,
            chars@ == header@,
            whole == split_tabs(chars@.skip(k0 + 1)),
            split_tabs(header@) == seq![chars@.subrange(0, k0 as int)] + whole,
        ensures
            whole == names@.map_values(|s: String| s@),
        decreases chars@.len() - pos,
    {
        let k = find_tab(&chars, pos);
        proof {
            lemma_split_step(chars@, pos as int, k as int);
        }
        let name = header.substring_char(pos, k).to_owned();
        let ghost before = names@.map_values(|s: String| s@);
        names.push(name);
        assert(names@.map_values(|s: String| s@) =~= before.push(chars@.subrange(pos as int, k as int)));
        if k == n {
            assert(whole =~= names@.map_values(|s: String| s@));
            break;
        }
        assert(whole =~= names@.map_values(|s: String| s@) + split_tabs(chars@.skip(k + 1)));
        pos = k + 1;
    }
    proof {
        assert forall|i: int| 0 <= i < names@.len() implies #[trigger] names@[i]@ == split_tabs(header@)[i + 1] by {
            assert(names@.map_values(|s: String| s@)[i] == names@[i]@);
        }
    }
    names
}

} // verus!

use vstd::prelude::*;
use vstd::string::*;
use vstd::multiset::Multiset;
use crate::query::{NamedPath, NamedPathView, records_view};

verus! {

/// Names are ordered character by character, by code point; a name comes
/// before every longer name that it starts.
pub open spec fn name_le(a: Seq<char>, b: Seq<char>) -> bool
    decreases a.len(),
{
    if a.len() == 0 {
        true
    } else if b.len() == 0 {
        false
    } else if a[0] as u32 != b[0] as u32 {
        (a[0] as u32) < (b[0] as u32)
    } else {
        name_le(a.drop_first(), b.drop_first())
    }
}

proof fn lemma_name_le_total(a: Seq<char>, b: Seq<char>)
    ensures
        name_le(a, b) || name_le(b, a),
    decreases a.len(),
{
    if a.len() > 0 && b.len() > 0 && a[0] as u32 == b[0] as u32 {
        lemma_name_le_total(a.drop_first(), b.drop_first());
    }
}

pub open spec fn sorted_by_name(records: Seq<NamedPathView>) -> bool {
    forall|i: int| 0 <= i < records.len() - 1 ==> name_le(records[i].name, #[trigger] records[i + 1].name)
}

fn name_le_exec(a: &str, b: &str) -> (r: bool)
    ensures
        r == name_le(a@, b@),
{
    let na = a.unicode_len();
    let nb = b.unicode_len();
    let mut i: usize = 0;
    assert(a@.skip(0) =~= a@);
    assert(b@.skip(0) =~= b@);
    while i < na && i < nb
        invariant
            na == a@.len(),
            nb == b@.len(),
            i <= na,
            i <= nb,
            name_le(a@, b@) == name_le(a@.skip(i as int), b@.skip(i as int)),
        decreases na - i,
    {
        let ca = a.get_char(i);
        let cb = b.get_char(i);
        assert(a@.skip(i as int)[0] == ca);
        assert(b@.skip(i as int)[0] == cb);
        if ca as u32 != cb as u32 {
            return (ca as u32) < (cb as u32);
        }
        assert(a@.skip(i as int).drop_first() =~= a@.skip(i + 1));
        assert(b@.skip(i as int).drop_first() =~= b@.skip(i + 1));
        i = i + 1;
    }
    i == na
}

/// Sorts records by name, in code point order.
pub fn sort_by_name(records: Vec<NamedPath>) -> (r: Vec<NamedPath>)
    ensures
        records_view(r@).to_multiset() == records_view(records@).to_multiset(),
        sorted_by_name(records_view(r@)),
{
    broadcast use vstd::seq_lib::to_multiset_build, vstd::seq_lib::to_multiset_insert, vstd::multiset::group_multiset_axioms, vstd::multiset::lemma_multiset_empty_len, Seq::to_multiset_ensures;

    let ghost all = records_view(records@);
    let mut rest = records;
    let mut out: Vec<NamedPath> = Vec::new();
    assert(records_view(out@) =~= Seq::<NamedPathView>::empty());
    assert(records_view(out@).to_multiset().len() == 0);
    assert(records_view(out@).to_multiset() =~= Multiset::empty());
    assert(records_view(rest@) == all);
    assert(Multiset::<NamedPathView>::empty().add(all.to_multiset()) =~= all.to_multiset());
    while rest.len() > 0
        invariant
            records_view(out@).to_multiset().add(records_view(rest@).to_multiset()) == all.to_multiset(),
            sorted_by_name(records_view(out@)),
        decreases rest@.len(),
    {
        let ghost rest_before = records_view(rest@);
        let record = rest.pop().unwrap();
        assert(rest_before =~= records_view(rest@).push(record@));
        let ghost out_before = records_view(out@);
        let mut j: usize = 0;
        while j < out.len() && !name_le_exec(record.name.as_str(), out[j].name.as_str())
            invariant
                j <= out@.len(),
                out_before == records_view(out@),
                forall|k: int| 0 <= k < j ==> !name_le(record.name@, #[trigger] out@[k].name@),
            decreases out@.len() - j,
        {
            j = j + 1;
        }
        proof {
            if j > 0 {
                lemma_name_le_total(record.name@, out@[j - 1].name@);
                assert(name_le(out_before[j - 1].name, record@.name));
            }
            if j < out_before.len() {
                assert(name_le(record@.name, out_before[j as int].name));
            }
        }
        let ghost rest_now = records_view(rest@);
        out.insert(j, record);
        assert(records_view(out@) =~= out_before.insert(j as int, record@));
        proof {
            out_before.insert_ensures(j as int, record@);
            vstd::seq_lib::to_multiset_insert(out_before, j as int, record@);
            vstd::seq_lib::to_multiset_build(rest_now, record@);
        }
        assert(out_before.insert(j as int, record@).to_multiset() == out_before.to_multiset().insert(record@));
        assert(rest_now.push(record@).to_multiset() == rest_now.to_multiset().insert(record@));
        assert(records_view(out@).to_multiset().add(rest_now.to_multiset()) =~= out_before.to_multiset().add(
            rest_before.to_multiset(),
        ));
        assert(sorted_by_name(records_view(out@))) by {
            let s = records_view(out@);
            assert forall|i: int| 0 <= i < s.len() - 1 implies name_le(s[i].name, #[trigger] s[i + 1].name) by {
                if i + 1 < j {
                    assert(s[i] == out_before[i] && s[i + 1] == out_before[i + 1]);
                } else if i + 1 == j {
                    assert(s[i] == out_before[i]);
                } else if i == j {
                } else {
                    assert(s[i] == out_before[i - 1] && s[i + 1] == out_before[i]);
                }
            }
        }
    }
    assert(records_view(rest@) =~= Seq::<NamedPathView>::empty());
    assert(records_view(rest@).to_multiset().len() == 0);
    assert(records_view(rest@).to_multiset() =~= Multiset::empty());
    assert(records_view(out@).to_multiset().add(Multiset::empty()) =~= records_view(out@).to_multiset());
    out
}

/// The widest name, counted in characters; 0 for no records.
pub open spec fn name_width(records: Seq<NamedPathView>) -> nat
    decreases records.len(),
{
    if records.len() == 0 {
        0
    } else {
        let w = name_width(records.drop_last());
        if records.last().name.len() > w {
            records.last().name.len()
        } else {
            w
        }
    }
}

pub open spec fn spaces(n: nat) -> Seq<char> {
    Seq::new(n, |_i: int| ' ')
}

/// What a row shows after the names: the path, or the failure message in brackets.
pub open spec fn path_item(try_path: Result<Seq<char>, Seq<char>>) -> Seq<char> {
    match try_path {
        Ok(p) => p,
        Err(m) => "["@ + m + "]"@,
    }
}

/// One row of the table: the name padded with spaces to `width` characters, two
/// spaces, then the path item.
pub open spec fn row(record: NamedPathView, width: nat) -> Seq<char> {
    record.name + spaces((width - record.name.len()) as nat) + spaces(2) + path_item(
        record.try_path,
    )
}

proof fn lemma_name_width_bounds(records: Seq<NamedPathView>)
    ensures
        forall|i: int| 0 <= i < records.len() ==> (#[trigger] records[i]).name.len() <= name_width(records),
    decreases records.len(),
{
    if records.len() > 0 {
        let front = records.drop_last();
        lemma_name_width_bounds(front);
        assert forall|i: int| 0 <= i < records.len() implies (#[trigger] records[i]).name.len()
            <= name_width(records) by {
            if i < front.len() {
                assert(front[i] == records[i]);
            }
        }
    }
}

/// In every row the path item starts at the same column: two past the widest
/// name. Before it stand the row's name and nothing but spaces.
pub proof fn lemma_rows_aligned(records: Seq<NamedPathView>, i: int)
    requires
        0 <= i < records.len(),
    ensures
        ({
            let w = name_width(records);
            let line = row(records[i], w);
            &&& line.len() == w + 2 + path_item(records[i].try_path).len()
            &&& line.subrange(0, records[i].name.len() as int) == records[i].name
            &&& forall|k: int| records[i].name.len() <= k < w + 2 ==> line[k] == ' '
            &&& line.subrange(w as int + 2, line.len() as int) == path_item(records[i].try_path)
        }),
{
    lemma_name_width_bounds(records);
    let w = name_width(records);
    let r = records[i];
    let line = row(r, w);
    let pad = spaces((w - r.name.len()) as nat) + spaces(2);
    assert(line =~= r.name + pad + path_item(r.try_path));
    assert(line.subrange(0, r.name.len() as int) =~= r.name);
    assert(line.subrange(w as int + 2, line.len() as int) =~= path_item(r.try_path));
    assert forall|k: int| r.name.len() <= k < w + 2 implies line[k] == ' ' by {
        assert(line[k] == pad[k - r.name.len()]);
    }
}

fn render_row(record: &NamedPath, width: usize) -> (r: String)
    requires
        record.name@.len() <= width,
    ensures
        r@ == row(record@, width as nat),
{
    proof {
        reveal_strlit("  ");
    }
    let mut line = String::from_str(record.name.as_str());
    let mut k: usize = record.name.as_str().unicode_len();
    let ghost n = record.name@.len();
    assert(spaces(0) =~= Seq::<char>::empty());
    assert(line@ =~= record.name@ + spaces(0));
    while k < width
        invariant
            n == record.name@.len(),
            n <= k <= width,
            line@ == record.name@ + spaces((k - n) as nat),
        decreases width - k,
    {
        line.append(" ");
        proof {
            reveal_strlit(" ");
        }
        assert(spaces((k + 1 - n) as nat) =~= spaces((k - n) as nat) + " "@);
        k = k + 1;
    }
    assert(spaces(2) =~= "  "@);
    line.append("  ");
    match &record.try_path {
        Ok(p) => {
            line.append(p.as_str());
        },
        Err(m) => {
            line.append("[");
            line.append(m.as_str());
            line.append("]");
        },
    }
    assert(line@ =~= row(record@, width as nat));
    line
}

/// Lays the records out as table rows, one per record and in their order, the
/// names padded to the widest name.
pub fn render_table(records: &Vec<NamedPath>) -> (r: Vec<String>)
    ensures
        r@.len() == records@.len(),
        forall|i: int|
            0 <= i < r@.len() ==> (#[trigger] r@[i])@ == row(
                records_view(records@)[i],
                name_width(records_view(records@)),
            ),
{
    let ghost all = records_view(records@);
    let mut width: usize = 0;
    let mut i: usize = 0;
    assert(all.take(0) =~= Seq::<NamedPathView>::empty());
    while i < records.len()
        invariant
            all == records_view(records@),
            i <= records@.len(),
            width == name_width(all.take(i as int)),
        decreases records@.len() - i,
    {
        let n = records[i].name.as_str().unicode_len();
        assert(all.take(i + 1).drop_last() =~= all.take(i as int));
        if n > width {
            width = n;
        }
        i = i + 1;
    }
    assert(all.take(i as int) =~= all);
    proof {
        lemma_name_width_bounds(all);
    }
    let mut lines: Vec<String> = Vec::new();
    let mut j: usize = 0;
    while j < records.len()
        invariant
            all == records_view(records@),
            width == name_width(all),
            forall|k: int| 0 <= k < all.len() ==> (#[trigger] all[k]).name.len() <= name_width(all),
            j <= records@.len(),
            lines@.len() == j,
            forall|k: int| 0 <= k < j ==> (#[trigger] lines@[k])@ == row(all[k], width as nat),
        decreases records@.len() - j,
    {
        assert(all[j as int] == records@[j as int]@);
        let line = render_row(&records[j], width);
        lines.push(line);
        j = j + 1;
    }
    lines
}

} // verus!

//! The general laws of the catalog model, stated and proved once for
//! all inputs: what the parsers keep and drop, that the catalog build
//! is deterministic, the reclassification precedence, dedup by
//! identity, and the catalog's sort order.

use vstd::prelude::*;

use crate::commands::{
    dedup_from, details_of_lines, empty_details, has_name, insert_by_name, key_value_of,
    line_record, line_well_formed, records_of_lines, reclassify, retag_foreign, sort_by_name,
    spec_catalog, spec_details, spec_version_list, DetailsView, PackageType, RecordView,
};
use crate::strutil::{lex_leq, norm_key, split_on, tokens_of, trim_leading_spaces};

verus! {

/// The well-formed lines of a line list: those with at least two
/// whitespace-delimited fields, in order.
pub open spec fn well_formed_lines(lines: Seq<Seq<char>>) -> Seq<Seq<char>>
    decreases lines.len(),
{
    if lines.len() == 0 {
        Seq::empty()
    } else {
        let pre = well_formed_lines(lines.drop_last());
        if line_well_formed(lines.last()) {
            pre.push(lines.last())
        } else {
            pre
        }
    }
}

proof fn lemma_records_of_wf_lines(lines: Seq<Seq<char>>, t: PackageType)
    ensures
        records_of_lines(lines, t).len() == well_formed_lines(lines).len(),
        forall|i: int|
            0 <= i < well_formed_lines(lines).len() ==> #[trigger] records_of_lines(lines, t)[i]
                == line_record(well_formed_lines(lines)[i], t),
    decreases lines.len(),
{
    if lines.len() > 0 {
        lemma_records_of_wf_lines(lines.drop_last(), t);
    }
}

/// Package-list parsing keeps exactly the lines with at least two
/// whitespace-delimited fields: each yields one record whose name is
/// field 0 and whose version is field 1, carrying the given
/// classification and no detail, in line order; every other line is
/// dropped.
pub proof fn lemma_version_list_records(text: Seq<char>, t: PackageType)
    ensures
        ({
            let wf = well_formed_lines(split_on(text, '\n'));
            let recs = spec_version_list(text, t);
            &&& recs.len() == wf.len()
            &&& forall|i: int|
                0 <= i < wf.len() ==> (#[trigger] recs[i]).name == tokens_of(wf[i])[0] && recs[i].version
                    == tokens_of(wf[i])[1] && recs[i].package_type == t && recs[i].details is None
        }),
{
    lemma_records_of_wf_lines(split_on(text, '\n'), t);
}

/// Building the catalog is deterministic: identical adapter output
/// yields the identical catalog — every record equal and in the same
/// sorted order, so in particular equal under name, classification and
/// version.
pub proof fn lemma_build_deterministic(
    a1: Seq<char>,
    b1: Seq<char>,
    c1: Seq<char>,
    a2: Seq<char>,
    b2: Seq<char>,
    c2: Seq<char>,
)
    requires
        a1 == a2,
        b1 == b2,
        c1 == c2,
    ensures
        spec_catalog(a1, b1, c1) == spec_catalog(a2, b2, c2),
{
}

/// The value of one recognized detail field: plain text, or an ordered
/// list of package names.
pub enum FieldVal {
    Text(Seq<char>),
    List(Seq<Seq<char>>),
}

/// Is the (normalized) key one of the ten recognized detail keys?
pub open spec fn recognized_key(key: Seq<char>) -> bool {
    ||| key == "name"@
    ||| key == "version"@
    ||| key == "description"@
    ||| key == "url"@
    ||| key == "dependson"@
    ||| key == "optionaldeps"@
    ||| key == "requiredby"@
    ||| key == "optionalfor"@
    ||| key == "installedsize"@
    ||| key == "installreason"@
}

/// The field of a detail record that a recognized key populates.
pub open spec fn detail_field(d: DetailsView, key: Seq<char>) -> FieldVal {
    if key == "name"@ {
        FieldVal::Text(d.name)
    } else if key == "version"@ {
        FieldVal::Text(d.version)
    } else if key == "description"@ {
        FieldVal::Text(d.description)
    } else if key == "url"@ {
        FieldVal::Text(d.url)
    } else if key == "dependson"@ {
        FieldVal::List(d.depends_on)
    } else if key == "optionaldeps"@ {
        FieldVal::List(d.optional_dependencies)
    } else if key == "requiredby"@ {
        FieldVal::List(d.required_by)
    } else if key == "optionalfor"@ {
        FieldVal::List(d.optional_for)
    } else if key == "installedsize"@ {
        FieldVal::Text(d.installed_size)
    } else {
        FieldVal::Text(d.installed_reason)
    }
}

/// The parsed value a raw value gives to a recognized key: leading
/// spaces trimmed; the whole remainder as one token for `dependson`
/// and `optionaldeps`; whitespace-delimited fields for `requiredby`
/// and `optionalfor`; the text itself otherwise.
pub open spec fn parsed_field_value(key: Seq<char>, raw: Seq<char>) -> FieldVal {
    let value = trim_leading_spaces(raw);
    if key == "dependson"@ || key == "optionaldeps"@ {
        FieldVal::List(seq![value])
    } else if key == "requiredby"@ || key == "optionalfor"@ {
        FieldVal::List(tokens_of(value))
    } else {
        FieldVal::Text(value)
    }
}

/// The empty default of a recognized key's field.
pub open spec fn default_field(key: Seq<char>) -> FieldVal {
    if key == "dependson"@ || key == "optionaldeps"@ || key == "requiredby"@ || key
        == "optionalfor"@ {
        FieldVal::List(Seq::empty())
    } else {
        FieldVal::Text(Seq::empty())
    }
}

/// Does this detail line set the field of (normalized) key `key`?
pub open spec fn line_sets(line: Seq<char>, key: Seq<char>) -> bool {
    match key_value_of(line) {
        None => false,
        Some(kv) => norm_key(kv.0) == key,
    }
}

/// The raw value of a detail line: everything after the first colon.
pub open spec fn line_raw_value(line: Seq<char>) -> Seq<char> {
    match key_value_of(line) {
        None => Seq::empty(),
        Some(kv) => kv.1,
    }
}

proof fn lemma_keys_distinct()
    ensures
        "name"@ != "version"@,
        "name"@ != "description"@,
        "name"@ != "url"@,
        "name"@ != "dependson"@,
        "name"@ != "optionaldeps"@,
        "name"@ != "requiredby"@,
        "name"@ != "optionalfor"@,
        "name"@ != "installedsize"@,
        "name"@ != "installreason"@,
        "version"@ != "description"@,
        "version"@ != "url"@,
        "version"@ != "dependson"@,
        "version"@ != "optionaldeps"@,
        "version"@ != "requiredby"@,
        "version"@ != "optionalfor"@,
        "version"@ != "installedsize"@,
        "version"@ != "installreason"@,
        "description"@ != "url"@,
        "description"@ != "dependson"@,
        "description"@ != "optionaldeps"@,
        "description"@ != "requiredby"@,
        "description"@ != "optionalfor"@,
        "description"@ != "installedsize"@,
        "description"@ != "installreason"@,
        "url"@ != "dependson"@,
        "url"@ != "optionaldeps"@,
        "url"@ != "requiredby"@,
        "url"@ != "optionalfor"@,
        "url"@ != "installedsize"@,
        "url"@ != "installreason"@,
        "dependson"@ != "optionaldeps"@,
        "dependson"@ != "requiredby"@,
        "dependson"@ != "optionalfor"@,
        "dependson"@ != "installedsize"@,
        "dependson"@ != "installreason"@,
        "optionaldeps"@ != "requiredby"@,
        "optionaldeps"@ != "optionalfor"@,
        "optionaldeps"@ != "installedsize"@,
        "optionaldeps"@ != "installreason"@,
        "requiredby"@ != "optionalfor"@,
        "requiredby"@ != "installedsize"@,
        "requiredby"@ != "installreason"@,
        "optionalfor"@ != "installedsize"@,
        "optionalfor"@ != "installreason"@,
        "installedsize"@ != "installreason"@,
{
    reveal_strlit("name");
    reveal_strlit("version");
    reveal_strlit("description");
    reveal_strlit("url");
    reveal_strlit("dependson");
    reveal_strlit("optionaldeps");
    reveal_strlit("requiredby");
    reveal_strlit("optionalfor");
    reveal_strlit("installedsize");
    reveal_strlit("installreason");
    assert("name"@.len() == 4);
    assert("version"@.len() == 7);
    assert("description"@.len() == 11);
    assert("url"@.len() == 3);
    assert("dependson"@.len() == 9);
    assert("optionaldeps"@.len() == 12);
    assert("requiredby"@.len() == 10);
    assert("optionalfor"@.len() == 11);
    assert("installedsize"@.len() == 13);
    assert("installreason"@.len() == 13);
    assert("description"@ != "optionalfor"@) by {
        assert("description"@[0] == 'd');
        assert("optionalfor"@[0] == 'o');
    }
    assert("installedsize"@ != "installreason"@) by {
        assert("installedsize"@[7] == 'e');
        assert("installreason"@[7] == 'r');
    }
}


proof fn lemma_apply_line_field(d: DetailsView, line: Seq<char>, key: Seq<char>)
    requires
        recognized_key(key),
    ensures
        detail_field(crate::commands::apply_detail_line(d, line), key) == (if line_sets(
            line,
            key,
        ) {
            parsed_field_value(key, line_raw_value(line))
        } else {
            detail_field(d, key)
        }),
{
    lemma_keys_distinct();
}

proof fn lemma_details_key_absent_lines(lines: Seq<Seq<char>>, key: Seq<char>)
    requires
        recognized_key(key),
        forall|i: int| 0 <= i < lines.len() ==> !line_sets(#[trigger] lines[i], key),
    ensures
        detail_field(details_of_lines(lines), key) == default_field(key),
    decreases lines.len(),
{
    if lines.len() == 0 {
        lemma_keys_distinct();
        assert(detail_field(empty_details(), key) == default_field(key));
    } else {
        lemma_details_key_absent_lines(lines.drop_last(), key);
        lemma_apply_line_field(details_of_lines(lines.drop_last()), lines.last(), key);
    }
}

proof fn lemma_details_key_last_wins_lines(lines: Seq<Seq<char>>, key: Seq<char>, i: int)
    requires
        recognized_key(key),
        0 <= i < lines.len(),
        line_sets(lines[i], key),
        forall|j: int| i < j < lines.len() ==> !line_sets(#[trigger] lines[j], key),
    ensures
        detail_field(details_of_lines(lines), key) == parsed_field_value(
            key,
            line_raw_value(lines[i]),
        ),
    decreases lines.len(),
{
    lemma_apply_line_field(details_of_lines(lines.drop_last()), lines.last(), key);
    if i == lines.len() - 1 {
    } else {
        lemma_details_key_last_wins_lines(lines.drop_last(), key, i);
    }
}

/// A recognized key set by no line of the raw detail text leaves its
/// field at the empty default: absence is not an error.
pub proof fn lemma_detail_key_absent(text: Seq<char>, key: Seq<char>)
    requires
        recognized_key(key),
        forall|i: int|
            0 <= i < split_on(text, '\n').len() ==> !line_sets(
                #[trigger] split_on(text, '\n')[i],
                key,
            ),
    ensures
        detail_field(spec_details(text), key) == default_field(key),
{
    lemma_details_key_absent_lines(split_on(text, '\n'), key);
}

/// A recognized key present exactly once in the raw detail text
/// populates its field with that line's value verbatim, after the
/// documented delimiter handling.
pub proof fn lemma_detail_key_present_once(text: Seq<char>, key: Seq<char>, i: int)
    requires
        recognized_key(key),
        0 <= i < split_on(text, '\n').len(),
        line_sets(split_on(text, '\n')[i], key),
        forall|j: int|
            0 <= j < split_on(text, '\n').len() && j != i ==> !line_sets(
                #[trigger] split_on(text, '\n')[j],
                key,
            ),
    ensures
        detail_field(spec_details(text), key) == parsed_field_value(
            key,
            line_raw_value(split_on(text, '\n')[i]),
        ),
{
    lemma_details_key_last_wins_lines(split_on(text, '\n'), key, i);
}
/// How many records of `s` bear the name `n`.
pub open spec fn count_name(s: Seq<RecordView>, n: Seq<char>) -> nat
    decreases s.len(),
{
    if s.len() == 0 {
        0
    } else {
        count_name(s.drop_last(), n) + (if s.last().name == n {
            1nat
        } else {
            0nat
        })
    }
}

proof fn lemma_count_name_concat(a: Seq<RecordView>, b: Seq<RecordView>, n: Seq<char>)
    ensures
        count_name(a + b, n) == count_name(a, n) + count_name(b, n),
    decreases b.len(),
{
    if b.len() == 0 {
        assert(a + b =~= a);
    } else {
        assert((a + b).drop_last() =~= a + b.drop_last());
        lemma_count_name_concat(a, b.drop_last(), n);
    }
}

proof fn lemma_count_name_single(r: RecordView, n: Seq<char>)
    ensures
        count_name(seq![r], n) == (if r.name == n {
            1nat
        } else {
            0nat
        }),
{
    assert(seq![r].drop_last() =~= Seq::<RecordView>::empty());
    assert(count_name(Seq::<RecordView>::empty(), n) == 0);
    assert(seq![r].last() == r);
}

proof fn lemma_count_name_zero(s: Seq<RecordView>, n: Seq<char>)
    ensures
        (count_name(s, n) == 0) <==> !has_name(s, n),
    decreases s.len(),
{
    if s.len() == 0 {
        assert(!has_name(s, n));
    } else {
        let t = s.drop_last();
        lemma_count_name_zero(t, n);
        if s.last().name == n {
            assert(s[s.len() - 1].name == n);
        } else {
            if has_name(t, n) {
                let i = choose|i: int| 0 <= i < t.len() && #[trigger] t[i].name == n;
                assert(s[i].name == n);
            }
            if has_name(s, n) {
                let i = choose|i: int| 0 <= i < s.len() && #[trigger] s[i].name == n;
                assert(i < s.len() - 1);
                assert(t[i].name == n);
            }
        }
    }
}

proof fn lemma_has_name_concat(a: Seq<RecordView>, b: Seq<RecordView>, n: Seq<char>)
    ensures
        has_name(a + b, n) <==> (has_name(a, n) || has_name(b, n)),
{
    if has_name(a, n) {
        let i = choose|i: int| 0 <= i < a.len() && #[trigger] a[i].name == n;
        assert((a + b)[i].name == n);
    }
    if has_name(b, n) {
        let i = choose|i: int| 0 <= i < b.len() && #[trigger] b[i].name == n;
        assert((a + b)[a.len() + i].name == n);
    }
    if has_name(a + b, n) {
        let i = choose|i: int| 0 <= i < (a + b).len() && #[trigger] (a + b)[i].name == n;
        if i < a.len() {
            assert(a[i].name == n);
        } else {
            assert(b[i - a.len()].name == n);
        }
    }
}

proof fn lemma_dedup_from_count(s: Seq<RecordView>, n: Seq<char>, i: int)
    requires
        0 <= i <= s.len(),
    ensures
        count_name(dedup_from(s, i), n) == (if has_name(s.subrange(i, s.len() as int), n) {
            1nat
        } else {
            0nat
        }),
    decreases s.len() - i,
{
    let suf = s.subrange(i, s.len() as int);
    if i == s.len() {
        assert(!has_name(suf, n));
    } else {
        let suf1 = s.subrange(i + 1, s.len() as int);
        lemma_dedup_from_count(s, n, i + 1);
        assert(suf =~= seq![s[i]] + suf1);
        lemma_has_name_concat(seq![s[i]], suf1, n);
        assert(seq![s[i]][0].name == s[i].name);
        if s[i].name == n {
            assert(has_name(seq![s[i]], n));
        } else {
            if has_name(seq![s[i]], n) {
                let k = choose|k: int|
                    0 <= k < seq![s[i]].len() && #[trigger] seq![s[i]][k].name == n;
                assert(false);
            }
        }
        if has_name(suf1, s[i].name) {
            if s[i].name == n {
                assert(has_name(suf1, n));
            }
        } else {
            lemma_count_name_concat(seq![s[i]], dedup_from(s, i + 1), n);
            lemma_count_name_single(s[i], n);
            if s[i].name == n {
                assert(!has_name(suf1, n));
            }
        }
    }
}

proof fn lemma_insert_count(r: RecordView, s: Seq<RecordView>, n: Seq<char>)
    ensures
        count_name(insert_by_name(r, s), n) == count_name(s, n) + (if r.name == n {
            1nat
        } else {
            0nat
        }),
    decreases s.len(),
{
    if s.len() == 0 {
        lemma_count_name_single(r, n);
    } else if lex_leq(r.name, s[0].name) {
        lemma_count_name_concat(seq![r], s, n);
        lemma_count_name_single(r, n);
    } else {
        lemma_insert_count(r, s.drop_first(), n);
        lemma_count_name_concat(seq![s[0]], insert_by_name(r, s.drop_first()), n);
        lemma_count_name_single(s[0], n);
        assert(s =~= seq![s[0]] + s.drop_first());
        lemma_count_name_concat(seq![s[0]], s.drop_first(), n);
    }
}

proof fn lemma_sort_count(s: Seq<RecordView>, n: Seq<char>)
    ensures
        count_name(sort_by_name(s), n) == count_name(s, n),
    decreases s.len(),
{
    if s.len() > 0 {
        lemma_sort_count(s.drop_last(), n);
        lemma_insert_count(s.last(), sort_by_name(s.drop_last()), n);
    }
}

proof fn lemma_insert_all(r: RecordView, s: Seq<RecordView>, p: spec_fn(RecordView) -> bool)
    requires
        p(r),
        forall|k: int| 0 <= k < s.len() ==> p(#[trigger] s[k]),
    ensures
        forall|k: int|
            0 <= k < insert_by_name(r, s).len() ==> p(#[trigger] insert_by_name(r, s)[k]),
    decreases s.len(),
{
    if s.len() == 0 {
    } else if lex_leq(r.name, s[0].name) {
    } else {
        assert(forall|k: int| 0 <= k < s.drop_first().len() ==> p(#[trigger] s.drop_first()[k]));
        lemma_insert_all(r, s.drop_first(), p);
        let res = seq![s[0]] + insert_by_name(r, s.drop_first());
        assert(forall|k: int|
            1 <= k < res.len() ==> res[k] == insert_by_name(r, s.drop_first())[k - 1]);
        assert(p(res[0]));
    }
}

proof fn lemma_dedup_all(s: Seq<RecordView>, i: int, p: spec_fn(RecordView) -> bool)
    requires
        0 <= i <= s.len(),
        forall|k: int| i <= k < s.len() ==> p(#[trigger] s[k]),
    ensures
        forall|k: int| 0 <= k < dedup_from(s, i).len() ==> p(#[trigger] dedup_from(s, i)[k]),
    decreases s.len() - i,
{
    if i < s.len() {
        lemma_dedup_all(s, i + 1, p);
        if !has_name(s.subrange(i + 1, s.len() as int), s[i].name) {
            let res = seq![s[i]] + dedup_from(s, i + 1);
            assert(p(res[0]));
            assert(forall|k: int| 1 <= k < res.len() ==> res[k] == dedup_from(s, i + 1)[k - 1]);
        }
    }
}

proof fn lemma_sort_all(s: Seq<RecordView>, p: spec_fn(RecordView) -> bool)
    requires
        forall|k: int| 0 <= k < s.len() ==> p(#[trigger] s[k]),
    ensures
        forall|k: int| 0 <= k < sort_by_name(s).len() ==> p(#[trigger] sort_by_name(s)[k]),
    decreases s.len(),
{
    if s.len() > 0 {
        assert(forall|k: int| 0 <= k < s.drop_last().len() ==> p(#[trigger] s.drop_last()[k]));
        lemma_sort_all(s.drop_last(), p);
        lemma_insert_all(s.last(), sort_by_name(s.drop_last()), p);
    }
}

proof fn lemma_reclassify_names(a: Seq<RecordView>, c: Seq<RecordView>)
    ensures
        reclassify(a, c).len() == a.len(),
        forall|k: int|
            0 <= k < a.len() ==> (#[trigger] reclassify(a, c)[k]) == retag_foreign(a[k], c)
                && reclassify(a, c)[k].name == a[k].name,
{
    assert(forall|k: int|
        0 <= k < a.len() ==> (#[trigger] reclassify(a, c)[k]) == retag_foreign(a[k], c));
}

/// Dedup by identity: no name occurs in the catalog more than once.
pub proof fn lemma_catalog_names_unique(
    a_text: Seq<char>,
    b_text: Seq<char>,
    c_text: Seq<char>,
    n: Seq<char>,
)
    ensures
        count_name(spec_catalog(a_text, b_text, c_text), n) <= 1,
{
    let a = spec_version_list(a_text, PackageType::Explicit);
    let b = spec_version_list(b_text, PackageType::Orphan);
    let c = spec_version_list(c_text, PackageType::Foreign);
    let merged = reclassify(a, c) + b;
    assert(merged.subrange(0, merged.len() as int) =~= merged);
    lemma_dedup_from_count(merged, n, 0);
    lemma_sort_count(crate::commands::dedup_later_wins(merged), n);
}

/// Reclassification precedence: a name reported by both the
/// "explicit" and the "foreign" query (and, as the tool guarantees,
/// not by the orphan query) appears in the catalog exactly once, and
/// tagged foreign.
pub proof fn lemma_reclassification_precedence(
    a_text: Seq<char>,
    b_text: Seq<char>,
    c_text: Seq<char>,
    n: Seq<char>,
)
    requires
        has_name(spec_version_list(a_text, PackageType::Explicit), n),
        has_name(spec_version_list(c_text, PackageType::Foreign), n),
        !has_name(spec_version_list(b_text, PackageType::Orphan), n),
    ensures
        count_name(spec_catalog(a_text, b_text, c_text), n) == 1,
        forall|i: int|
            0 <= i < spec_catalog(a_text, b_text, c_text).len() && (#[trigger] spec_catalog(
                a_text,
                b_text,
                c_text,
            )[i]).name == n ==> spec_catalog(a_text, b_text, c_text)[i].package_type
                == PackageType::Foreign,
{
    let a = spec_version_list(a_text, PackageType::Explicit);
    let b = spec_version_list(b_text, PackageType::Orphan);
    let c = spec_version_list(c_text, PackageType::Foreign);
    let re = reclassify(a, c);
    let merged = re + b;
    let deduped = crate::commands::dedup_later_wins(merged);
    let cat = spec_catalog(a_text, b_text, c_text);
    lemma_reclassify_names(a, c);
    // the name is in the merged list
    let i = choose|i: int| 0 <= i < a.len() && #[trigger] a[i].name == n;
    assert(re[i].name == n);
    assert(has_name(re, n));
    lemma_has_name_concat(re, b, n);
    // so it survives dedup exactly once, and sorting keeps the count
    assert(merged.subrange(0, merged.len() as int) =~= merged);
    lemma_dedup_from_count(merged, n, 0);
    lemma_sort_count(deduped, n);
    // every merged record named `n` is foreign: the explicit ones are
    // retagged, and the orphan query did not report `n`
    let p = |r: RecordView| r.name == n ==> r.package_type == PackageType::Foreign;
    assert forall|k: int| 0 <= k < merged.len() implies p(#[trigger] merged[k]) by {
        if k < re.len() {
            assert(merged[k] == re[k]);
            if re[k].name == n {
                assert(has_name(c, a[k].name));
            }
        } else {
            assert(merged[k] == b[k - re.len()]);
            if b[k - re.len()].name == n {
                assert(has_name(b, n));
            }
        }
    }
    lemma_dedup_all(merged, 0, p);
    lemma_sort_all(deduped, p);
    assert(forall|k: int| 0 <= k < cat.len() ==> p(#[trigger] cat[k]));
}

/// The catalog's order: names ascending, lexicographically.
pub open spec fn sorted_by_names(s: Seq<RecordView>) -> bool {
    forall|i: int, j: int| 0 <= i < j < s.len() ==> lex_leq(#[trigger] s[i].name, #[trigger] s[j].name)
}

proof fn lemma_insert_sorted(r: RecordView, s: Seq<RecordView>)
    requires
        sorted_by_names(s),
    ensures
        sorted_by_names(insert_by_name(r, s)),
    decreases s.len(),
{
    if s.len() == 0 {
    } else if lex_leq(r.name, s[0].name) {
        let res = seq![r] + s;
        assert forall|i: int, j: int|
            0 <= i < j < res.len() implies lex_leq(#[trigger] res[i].name, #[trigger] res[j].name) by {
            if i == 0 {
                if j >= 1 {
                    if j == 1 {
                        assert(res[j] == s[0]);
                    } else {
                        crate::strutil::lemma_lex_leq_trans(r.name, s[0].name, s[j - 1].name);
                    }
                }
            } else {
                assert(res[i] == s[i - 1] && res[j] == s[j - 1]);
            }
        }
    } else {
        crate::strutil::lemma_lex_leq_total(r.name, s[0].name);
        assert(forall|i: int, j: int|
            0 <= i < j < s.drop_first().len() ==> lex_leq(
                #[trigger] s.drop_first()[i].name,
                #[trigger] s.drop_first()[j].name,
            ));
        lemma_insert_sorted(r, s.drop_first());
        let p = |x: RecordView| lex_leq(s[0].name, x.name);
        assert(p(r));
        assert forall|k: int| 0 <= k < s.drop_first().len() implies p(#[trigger] s.drop_first()[k]) by {
            assert(s.drop_first()[k] == s[k + 1]);
        }
        lemma_insert_all(r, s.drop_first(), p);
        let ins = insert_by_name(r, s.drop_first());
        let res = seq![s[0]] + ins;
        assert forall|i: int, j: int|
            0 <= i < j < res.len() implies lex_leq(#[trigger] res[i].name, #[trigger] res[j].name) by {
            if i == 0 {
                assert(p(ins[j - 1]));
            } else {
                assert(res[i] == ins[i - 1] && res[j] == ins[j - 1]);
            }
        }
    }
}

proof fn lemma_sort_sorted(s: Seq<RecordView>)
    ensures
        sorted_by_names(sort_by_name(s)),
    decreases s.len(),
{
    if s.len() > 0 {
        lemma_sort_sorted(s.drop_last());
        lemma_insert_sorted(s.last(), sort_by_name(s.drop_last()));
    }
}

/// The catalog is sorted by name, ascending, in the byte-wise
/// (code-point) lexicographic order.
pub proof fn lemma_catalog_sorted(a_text: Seq<char>, b_text: Seq<char>, c_text: Seq<char>)
    ensures
        sorted_by_names(spec_catalog(a_text, b_text, c_text)),
{
    let a = spec_version_list(a_text, PackageType::Explicit);
    let b = spec_version_list(b_text, PackageType::Orphan);
    let c = spec_version_list(c_text, PackageType::Foreign);
    lemma_sort_sorted(crate::commands::dedup_later_wins(reclassify(a, c) + b));
}

} // verus!

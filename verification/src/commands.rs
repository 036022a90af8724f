//! The package catalog model: typed records parsed from the package
//! manager's line-oriented output, and the merged, deduplicated,
//! classified, sorted catalog built from the three classification
//! queries.

use vstd::prelude::*;

use crate::strutil::{
    chars_eq_str, lemma_str_views_push, lex_leq, norm_key, normalize_key, split_char, split_on,
    str_eq, str_lex_leq, str_views, tokens, tokens_of, trim_leading, trim_leading_spaces,
};

verus! {

/// Installation-origin tag of one package.
#[derive(Clone, Copy, PartialEq, Eq, Structural, Debug)]
pub enum PackageType {
    Explicit,
    Orphan,
    Foreign,
}

/// Extended metadata of one package, fetched on demand.
/// A field absent from the source text stays at its empty default.
pub struct PackageDetails {
    pub name: String,
    pub version: String,
    pub description: String,
    pub url: String,
    pub depends_on: Vec<String>,
    pub optional_dependencies: Vec<String>,
    pub required_by: Vec<String>,
    pub optional_for: Vec<String>,
    pub installed_size: String,
    pub installed_reason: String,
}

/// The mathematical value of a `PackageDetails`.
pub struct DetailsView {
    pub name: Seq<char>,
    pub version: Seq<char>,
    pub description: Seq<char>,
    pub url: Seq<char>,
    pub depends_on: Seq<Seq<char>>,
    pub optional_dependencies: Seq<Seq<char>>,
    pub required_by: Seq<Seq<char>>,
    pub optional_for: Seq<Seq<char>>,
    pub installed_size: Seq<char>,
    pub installed_reason: Seq<char>,
}

impl View for PackageDetails {
    type V = DetailsView;

    open spec fn view(&self) -> DetailsView {
        DetailsView {
            name: self.name@,
            version: self.version@,
            description: self.description@,
            url: self.url@,
            depends_on: str_views(self.depends_on@),
            optional_dependencies: str_views(self.optional_dependencies@),
            required_by: str_views(self.required_by@),
            optional_for: str_views(self.optional_for@),
            installed_size: self.installed_size@,
            installed_reason: self.installed_reason@,
        }
    }
}

/// A detail record with every field at its empty default.
pub open spec fn empty_details() -> DetailsView {
    DetailsView {
        name: Seq::empty(),
        version: Seq::empty(),
        description: Seq::empty(),
        url: Seq::empty(),
        depends_on: Seq::empty(),
        optional_dependencies: Seq::empty(),
        required_by: Seq::empty(),
        optional_for: Seq::empty(),
        installed_size: Seq::empty(),
        installed_reason: Seq::empty(),
    }
}

/// Clones a vector of strings element by element.
fn clone_string_vec(v: &Vec<String>) -> (r: Vec<String>)
    ensures
        str_views(r@) == str_views(v@),
{
    let mut out: Vec<String> = Vec::new();
    let mut i: usize = 0;
    proof {
        assert(str_views(out@) =~= str_views(v@).subrange(0, 0));
    }
    while i < v.len()
        invariant
            i <= v.len(),
            str_views(out@) == str_views(v@).subrange(0, i as int),
        decreases v.len() - i,
    {
        let x = v[i].clone();
        proof {
            lemma_str_views_push(out@, x);
            assert(str_views(v@).subrange(0, i + 1 as int) =~= str_views(v@).subrange(
                0,
                i as int,
            ).push(v@[i as int]@));
        }
        out.push(x);
        i = i + 1;
    }
    proof {
        assert(str_views(v@).subrange(0, v@.len() as int) =~= str_views(v@));
    }
    out
}

impl Clone for PackageDetails {
    fn clone(&self) -> (r: Self)
        ensures
            r@ == self@,
    {
        PackageDetails {
            name: self.name.clone(),
            version: self.version.clone(),
            description: self.description.clone(),
            url: self.url.clone(),
            depends_on: clone_string_vec(&self.depends_on),
            optional_dependencies: clone_string_vec(&self.optional_dependencies),
            required_by: clone_string_vec(&self.required_by),
            optional_for: clone_string_vec(&self.optional_for),
            installed_size: self.installed_size.clone(),
            installed_reason: self.installed_reason.clone(),
        }
    }
}

impl Default for PackageDetails {
    /// A detail record with every field empty.
    fn default() -> (r: Self)
        ensures
            r@ == empty_details(),
    {
        let r = PackageDetails {
            name: String::new(),
            version: String::new(),
            description: String::new(),
            url: String::new(),
            depends_on: Vec::new(),
            optional_dependencies: Vec::new(),
            required_by: Vec::new(),
            optional_for: Vec::new(),
            installed_size: String::new(),
            installed_reason: String::new(),
        };
        proof {
            assert(str_views(Seq::<String>::empty()) =~= Seq::<Seq<char>>::empty());
        }
        r
    }
}

/// Identity-bearing summary of one installed package. Two records are
/// the same logical package exactly when their names agree.
pub struct PackageVersionInfo {
    pub name: String,
    pub version: String,
    pub details: Option<PackageDetails>,
    pub package_type: PackageType,
}

/// The mathematical value of a `PackageVersionInfo`.
pub struct RecordView {
    pub name: Seq<char>,
    pub version: Seq<char>,
    pub details: Option<DetailsView>,
    pub package_type: PackageType,
}

impl View for PackageVersionInfo {
    type V = RecordView;

    open spec fn view(&self) -> RecordView {
        RecordView {
            name: self.name@,
            version: self.version@,
            details: match self.details {
                Some(d) => Some(d@),
                None => None,
            },
            package_type: self.package_type,
        }
    }
}

impl PartialEq for PackageVersionInfo {
    /// Record equality is identity: names alone decide it.
    fn eq(&self, other: &Self) -> (r: bool) {
        self.name == other.name
    }
}

impl vstd::std_specs::cmp::PartialEqSpecImpl for PackageVersionInfo {
    open spec fn obeys_eq_spec() -> bool {
        true
    }

    open spec fn eq_spec(&self, other: &Self) -> bool {
        self.name@ == other.name@
    }
}

impl Clone for PackageVersionInfo {
    fn clone(&self) -> (r: Self)
        ensures
            r@ == self@,
    {
        PackageVersionInfo {
            name: self.name.clone(),
            version: self.version.clone(),
            details: match &self.details {
                Some(d) => Some(d.clone()),
                None => None,
            },
            package_type: self.package_type,
        }
    }
}

impl PackageVersionInfo {
    /// Whether the detail record has been fetched and cached.
    pub fn has_details(&self) -> (r: bool)
        ensures
            r == (self@.details is Some),
    {
        self.details.is_some()
    }

    /// The cached detail record, if any.
    pub fn cached_details(&self) -> (r: &Option<PackageDetails>)
        ensures
            match r {
                Some(d) => self@.details == Some(d@),
                None => self@.details is None,
            },
    {
        &self.details
    }

    /// The compute-if-absent accessor for the detail record: on the
    /// first call the caller supplies the freshly fetched record, which
    /// is cached; later calls return the cached record and ignore the
    /// argument. Identity and classification never change.
    pub fn get_details(&mut self, fetched: PackageDetails) -> (r: PackageDetails)
        ensures
            final(self).name == old(self).name,
            final(self).version == old(self).version,
            final(self).package_type == old(self).package_type,
            match old(self)@.details {
                Some(d) => r@ == d && final(self)@ == old(self)@,
                None => r@ == fetched@ && final(self)@.details == Some(fetched@),
            },
            final(self)@.details is Some,
    {
        match &self.details {
            Some(d) => d.clone(),
            None => {
                self.details = Some(fetched.clone());
                fetched
            },
        }
    }
}

/// The views of a sequence of records.
pub open spec fn rec_views(v: Seq<PackageVersionInfo>) -> Seq<RecordView> {
    v.map_values(|p: PackageVersionInfo| p@)
}

pub proof fn lemma_rec_views_push(v: Seq<PackageVersionInfo>, x: PackageVersionInfo)
    ensures
        rec_views(v.push(x)) == rec_views(v).push(x@),
{
    assert(rec_views(v.push(x)) =~= rec_views(v).push(x@));
}

/// A package line is well formed when it has at least two
/// whitespace-delimited fields: the name and the version.
pub open spec fn line_well_formed(line: Seq<char>) -> bool {
    tokens_of(line).len() >= 2
}

/// The record a well-formed package line denotes: field 0 is the name,
/// field 1 the version; the record carries the given classification and
/// no detail.
pub open spec fn line_record(line: Seq<char>, t: PackageType) -> RecordView {
    RecordView {
        name: tokens_of(line)[0],
        version: tokens_of(line)[1],
        details: None,
        package_type: t,
    }
}

/// The records of a list of package lines, in order; lines with fewer
/// than two fields are dropped.
pub open spec fn records_of_lines(lines: Seq<Seq<char>>, t: PackageType) -> Seq<RecordView>
    decreases lines.len(),
{
    if lines.len() == 0 {
        Seq::empty()
    } else {
        let pre = records_of_lines(lines.drop_last(), t);
        if line_well_formed(lines.last()) {
            pre.push(line_record(lines.last(), t))
        } else {
            pre
        }
    }
}

/// The records denoted by raw package-list text: one candidate line per
/// newline-separated segment.
pub open spec fn spec_version_list(text: Seq<char>, t: PackageType) -> Seq<RecordView> {
    records_of_lines(split_on(text, '\n'), t)
}

/// Parses raw package-list text: one record per line with at least two
/// whitespace-delimited fields, tagged with the given classification.
pub fn parse_version_list(input: &str, package_type: PackageType) -> (r: Vec<PackageVersionInfo>)
    ensures
        rec_views(r@) == spec_version_list(input@, package_type),
{
    let lines = split_char(input, '\n');
    let mut out: Vec<PackageVersionInfo> = Vec::new();
    let mut i: usize = 0;
    proof {
        assert(rec_views(out@) =~= records_of_lines(
            str_views(lines@).subrange(0, 0),
            package_type,
        ));
    }
    while i < lines.len()
        invariant
            i <= lines.len(),
            str_views(lines@) == split_on(input@, '\n'),
            rec_views(out@) == records_of_lines(
                str_views(lines@).subrange(0, i as int),
                package_type,
            ),
        decreases lines.len() - i,
    {
        proof {
            let lv = str_views(lines@);
            assert(lv.subrange(0, i + 1 as int).drop_last() =~= lv.subrange(0, i as int));
            assert(lv.subrange(0, i + 1 as int).last() == lv[i as int]);
            assert(lv[i as int] == lines@[i as int]@);
        }
        let toks = tokens(lines[i].as_str());
        if toks.len() >= 2 {
            let rec = PackageVersionInfo {
                name: toks[0].clone(),
                version: toks[1].clone(),
                details: None,
                package_type,
            };
            proof {
                lemma_rec_views_push(out@, rec);
                assert(str_views(toks@)[0] == toks@[0]@);
                assert(str_views(toks@)[1] == toks@[1]@);
            }
            out.push(rec);
        }
        i = i + 1;
    }
    proof {
        assert(str_views(lines@).subrange(0, lines@.len() as int) =~= str_views(lines@));
    }
    out
}

/// Splits a detail line at its first colon into the raw key and the raw
/// value; a line with no colon denotes nothing.
pub open spec fn key_value_of(line: Seq<char>) -> Option<(Seq<char>, Seq<char>)>
    decreases line.len(),
{
    if line.len() == 0 {
        None
    } else if line[0] == ':' {
        Some((Seq::empty(), line.drop_first()))
    } else {
        match key_value_of(line.drop_first()) {
            None => None,
            Some(kv) => Some((seq![line[0]] + kv.0, kv.1)),
        }
    }
}

proof fn lemma_key_value_none(s: Seq<char>)
    requires
        forall|j: int| 0 <= j < s.len() ==> s[j] != ':',
    ensures
        key_value_of(s) is None,
    decreases s.len(),
{
    if s.len() > 0 {
        let t = s.drop_first();
        assert(forall|j: int| 0 <= j < t.len() ==> t[j] == s[j + 1] && t[j] != ':');
        lemma_key_value_none(t);
    }
}

proof fn lemma_key_value_at(s: Seq<char>, i: int)
    requires
        0 <= i < s.len(),
        s[i] == ':',
        forall|j: int| 0 <= j < i ==> s[j] != ':',
    ensures
        key_value_of(s) == Some((s.subrange(0, i), s.subrange(i + 1, s.len() as int))),
    decreases i,
{
    if i == 0 {
        assert(s.subrange(0, 0) =~= Seq::<char>::empty());
        assert(s.subrange(1, s.len() as int) =~= s.drop_first());
    } else {
        let t = s.drop_first();
        assert(forall|j: int| 0 <= j < i - 1 ==> t[j] == s[j + 1] && t[j] != ':');
        lemma_key_value_at(t, i - 1);
        assert(seq![s[0]] + t.subrange(0, i - 1) =~= s.subrange(0, i));
        assert(t.subrange(i, t.len() as int) =~= s.subrange(i + 1, s.len() as int));
    }
}

/// Finds the first colon of a detail line.
fn find_first_colon(s: &str) -> (r: Option<usize>)
    ensures
        match r {
            Some(i) => i < s@.len() && s@[i as int] == ':' && key_value_of(s@) == Some(
                (s@.subrange(0, i as int), s@.subrange(i + 1, s@.len() as int)),
            ),
            None => key_value_of(s@) is None,
        },
{
    let n = s.unicode_len();
    let mut i: usize = 0;
    while i < n
        invariant
            i <= n,
            n == s@.len(),
            forall|j: int| 0 <= j < i ==> s@[j] != ':',
        decreases n - i,
    {
        if s.get_char(i) == ':' {
            proof {
                lemma_key_value_at(s@, i as int);
            }
            return Some(i);
        }
        i = i + 1;
    }
    proof {
        lemma_key_value_none(s@);
    }
    None
}

/// One detail line applied to a detail record: a recognized key (after
/// normalization) replaces its field with the value after the first
/// colon, leading spaces trimmed. The whole remainder is one token for
/// `dependson` and `optionaldeps`; `requiredby` and `optionalfor` are
/// split into whitespace-delimited fields. Unrecognized keys and lines
/// without a colon change nothing.
pub open spec fn apply_detail_line(d: DetailsView, line: Seq<char>) -> DetailsView {
    match key_value_of(line) {
        None => d,
        Some(kv) => {
            let key = norm_key(kv.0);
            let value = trim_leading_spaces(kv.1);
            if key == "name"@ {
                DetailsView { name: value, ..d }
            } else if key == "version"@ {
                DetailsView { version: value, ..d }
            } else if key == "description"@ {
                DetailsView { description: value, ..d }
            } else if key == "url"@ {
                DetailsView { url: value, ..d }
            } else if key == "dependson"@ {
                DetailsView { depends_on: seq![value], ..d }
            } else if key == "optionaldeps"@ {
                DetailsView { optional_dependencies: seq![value], ..d }
            } else if key == "requiredby"@ {
                DetailsView { required_by: tokens_of(value), ..d }
            } else if key == "optionalfor"@ {
                DetailsView { optional_for: tokens_of(value), ..d }
            } else if key == "installedsize"@ {
                DetailsView { installed_size: value, ..d }
            } else if key == "installreason"@ {
                DetailsView { installed_reason: value, ..d }
            } else {
                d
            }
        },
    }
}

/// The detail record denoted by a list of detail lines, applied in
/// order; on a repeated key the later line wins.
pub open spec fn details_of_lines(lines: Seq<Seq<char>>) -> DetailsView
    decreases lines.len(),
{
    if lines.len() == 0 {
        empty_details()
    } else {
        apply_detail_line(details_of_lines(lines.drop_last()), lines.last())
    }
}

/// The detail record denoted by raw detail text.
pub open spec fn spec_details(text: Seq<char>) -> DetailsView {
    details_of_lines(split_on(text, '\n'))
}

/// Parses one package's raw detail text into its detail record.
/// Malformed lines are skipped and missing keys leave their field
/// empty; parsing never fails.
pub fn parse_details_list(input: &str) -> (r: PackageDetails)
    ensures
        r@ == spec_details(input@),
{
    let lines = split_char(input, '\n');
    let mut details = PackageDetails::default();
    let mut i: usize = 0;
    proof {
        assert(details@ == details_of_lines(str_views(lines@).subrange(0, 0)));
    }
    while i < lines.len()
        invariant
            i <= lines.len(),
            str_views(lines@) == split_on(input@, '\n'),
            details@ == details_of_lines(str_views(lines@).subrange(0, i as int)),
        decreases lines.len() - i,
    {
        proof {
            let lv = str_views(lines@);
            assert(lv.subrange(0, i + 1 as int).drop_last() =~= lv.subrange(0, i as int));
            assert(lv.subrange(0, i + 1 as int).last() == lv[i as int]);
            assert(lv[i as int] == lines@[i as int]@);
        }
        let line: &str = lines[i].as_str();
        match find_first_colon(line) {
            None => {},
            Some(ci) => {
                let n = line.unicode_len();
                let keypart = line.substring_char(0, ci);
                let valpart = line.substring_char(ci + 1, n);
                let key = normalize_key(keypart);
                let value = trim_leading(valpart);
                if chars_eq_str(&key, "name") {
                    details.name = value.to_owned();
                } else if chars_eq_str(&key, "version") {
                    details.version = value.to_owned();
                } else if chars_eq_str(&key, "description") {
                    details.description = value.to_owned();
                } else if chars_eq_str(&key, "url") {
                    details.url = value.to_owned();
                } else if chars_eq_str(&key, "dependson") {
                    let mut v: Vec<String> = Vec::new();
                    v.push(value.to_owned());
                    proof {
                        assert(str_views(v@) =~= seq![value@]);
                    }
                    details.depends_on = v;
                } else if chars_eq_str(&key, "optionaldeps") {
                    let mut v: Vec<String> = Vec::new();
                    v.push(value.to_owned());
                    proof {
                        assert(str_views(v@) =~= seq![value@]);
                    }
                    details.optional_dependencies = v;
                } else if chars_eq_str(&key, "requiredby") {
                    details.required_by = tokens(value);
                } else if chars_eq_str(&key, "optionalfor") {
                    details.optional_for = tokens(value);
                } else if chars_eq_str(&key, "installedsize") {
                    details.installed_size = value.to_owned();
                } else if chars_eq_str(&key, "installreason") {
                    details.installed_reason = value.to_owned();
                }
            },
        }
        i = i + 1;
    }
    proof {
        assert(str_views(lines@).subrange(0, lines@.len() as int) =~= str_views(lines@));
    }
    details
}

/// Some record of `s` bears the name `n`.
pub open spec fn has_name(s: Seq<RecordView>, n: Seq<char>) -> bool {
    exists|i: int| 0 <= i < s.len() && #[trigger] s[i].name == n
}

/// A record of the "explicit" query retagged foreign when the
/// "foreign" query also reported its name: the more specific tag wins.
pub open spec fn retag_foreign(r: RecordView, foreign: Seq<RecordView>) -> RecordView {
    if has_name(foreign, r.name) {
        RecordView { package_type: PackageType::Foreign, ..r }
    } else {
        r
    }
}

/// The "explicit" query's records with every name the "foreign" query
/// also reported retagged foreign.
pub open spec fn reclassify(a: Seq<RecordView>, foreign: Seq<RecordView>) -> Seq<RecordView> {
    a.map_values(|r: RecordView| retag_foreign(r, foreign))
}

/// The suffix of `s` from `i` on, with every record whose name occurs
/// again later dropped: on duplicate names the later entry wins.
pub open spec fn dedup_from(s: Seq<RecordView>, i: int) -> Seq<RecordView>
    decreases s.len() - i,
{
    if i < 0 || i >= s.len() {
        Seq::empty()
    } else if has_name(s.subrange(i + 1, s.len() as int), s[i].name) {
        dedup_from(s, i + 1)
    } else {
        seq![s[i]] + dedup_from(s, i + 1)
    }
}

/// `s` without duplicate names; of records sharing a name the later
/// one is kept.
pub open spec fn dedup_later_wins(s: Seq<RecordView>) -> Seq<RecordView> {
    dedup_from(s, 0)
}

/// `r` inserted into `s` before the first record whose name is not
/// smaller.
pub open spec fn insert_by_name(r: RecordView, s: Seq<RecordView>) -> Seq<RecordView>
    decreases s.len(),
{
    if s.len() == 0 {
        seq![r]
    } else if lex_leq(r.name, s[0].name) {
        seq![r] + s
    } else {
        seq![s[0]] + insert_by_name(r, s.drop_first())
    }
}

/// `s` sorted by name in ascending lexicographic order (insertion
/// sort, back to front).
pub open spec fn sort_by_name(s: Seq<RecordView>) -> Seq<RecordView>
    decreases s.len(),
{
    if s.len() == 0 {
        Seq::empty()
    } else {
        insert_by_name(s.last(), sort_by_name(s.drop_last()))
    }
}

/// The catalog denoted by the raw outputs of the three classification
/// queries: parse each, retag the explicit records that the foreign
/// query also reported, concatenate with the orphan records, drop
/// duplicate names (the later entry wins), and sort by name.
pub open spec fn spec_catalog(
    explicit_text: Seq<char>,
    orphan_text: Seq<char>,
    foreign_text: Seq<char>,
) -> Seq<RecordView> {
    let a = spec_version_list(explicit_text, PackageType::Explicit);
    let b = spec_version_list(orphan_text, PackageType::Orphan);
    let c = spec_version_list(foreign_text, PackageType::Foreign);
    sort_by_name(dedup_later_wins(reclassify(a, c) + b))
}

/// Does any record of `v` from position `start` on bear the name `n`?
fn contains_name_from(v: &Vec<PackageVersionInfo>, start: usize, n: &str) -> (r: bool)
    requires
        start <= v@.len(),
    ensures
        r == has_name(rec_views(v@).subrange(start as int, v@.len() as int), n@),
{
    let ghost suffix = rec_views(v@).subrange(start as int, v@.len() as int);
    let mut i: usize = start;
    while i < v.len()
        invariant
            start <= i <= v@.len(),
            suffix == rec_views(v@).subrange(start as int, v@.len() as int),
            forall|k: int| 0 <= k < i - start ==> #[trigger] suffix[k].name != n@,
        decreases v@.len() - i,
    {
        if str_eq(v[i].name.as_str(), n) {
            proof {
                assert(suffix[i - start].name == n@);
            }
            return true;
        }
        i = i + 1;
    }
    false
}

/// The explicit records with every name the foreign query also
/// reported retagged foreign.
fn reclassify_records(
    list: &Vec<PackageVersionInfo>,
    foreign: &Vec<PackageVersionInfo>,
) -> (r: Vec<PackageVersionInfo>)
    ensures
        rec_views(r@) == reclassify(rec_views(list@), rec_views(foreign@)),
{
    let ghost lv = rec_views(list@);
    let ghost fv = rec_views(foreign@);
    let mut out: Vec<PackageVersionInfo> = Vec::new();
    let mut i: usize = 0;
    proof {
        assert(rec_views(out@) =~= lv.subrange(0, 0).map_values(
            |r: RecordView| retag_foreign(r, fv),
        ));
    }
    while i < list.len()
        invariant
            i <= list@.len(),
            lv == rec_views(list@),
            fv == rec_views(foreign@),
            rec_views(out@) == reclassify(lv.subrange(0, i as int), fv),
        decreases list@.len() - i,
    {
        let mut q = list[i].clone();
        if contains_name_from(foreign, 0, q.name.as_str()) {
            proof {
                assert(fv.subrange(0, fv.len() as int) =~= fv);
            }
            q.package_type = PackageType::Foreign;
        } else {
            proof {
                assert(fv.subrange(0, fv.len() as int) =~= fv);
            }
        }
        proof {
            lemma_rec_views_push(out@, q);
            assert(q@ == retag_foreign(lv[i as int], fv));
            assert(reclassify(lv.subrange(0, i + 1 as int), fv) =~= reclassify(
                lv.subrange(0, i as int),
                fv,
            ).push(retag_foreign(lv[i as int], fv)));
        }
        out.push(q);
        i = i + 1;
    }
    proof {
        assert(lv.subrange(0, lv.len() as int) =~= lv);
    }
    out
}

/// Drops every record whose name occurs again later: the later entry
/// wins.
fn dedup_records(v: &Vec<PackageVersionInfo>) -> (r: Vec<PackageVersionInfo>)
    ensures
        rec_views(r@) == dedup_later_wins(rec_views(v@)),
{
    let ghost vv = rec_views(v@);
    let mut out: Vec<PackageVersionInfo> = Vec::new();
    let mut i: usize = 0;
    while i < v.len()
        invariant
            i <= v@.len(),
            vv == rec_views(v@),
            dedup_from(vv, 0) == rec_views(out@) + dedup_from(vv, i as int),
        decreases v@.len() - i,
    {
        if !contains_name_from(v, i + 1, v[i].name.as_str()) {
            let q = v[i].clone();
            proof {
                lemma_rec_views_push(out@, q);
                assert(rec_views(out@) + (seq![vv[i as int]] + dedup_from(vv, i + 1 as int))
                    =~= rec_views(out@).push(vv[i as int]) + dedup_from(vv, i + 1 as int));
            }
            out.push(q);
        }
        i = i + 1;
    }
    proof {
        assert(rec_views(out@) + dedup_from(vv, vv.len() as int) =~= rec_views(out@));
    }
    out
}

proof fn lemma_insert_by_name_at(r: RecordView, s: Seq<RecordView>, j: int)
    requires
        0 <= j <= s.len(),
        forall|k: int| 0 <= k < j ==> !lex_leq(r.name, #[trigger] s[k].name),
        j < s.len() ==> lex_leq(r.name, s[j].name),
    ensures
        insert_by_name(r, s) == s.subrange(0, j) + seq![r] + s.subrange(j, s.len() as int),
    decreases j,
{
    if j == 0 {
        if s.len() == 0 {
            assert(insert_by_name(r, s) =~= s.subrange(0, 0) + seq![r] + s.subrange(
                0,
                s.len() as int,
            ));
        } else {
            assert(s.subrange(0, s.len() as int) =~= s);
            assert(insert_by_name(r, s) =~= s.subrange(0, 0) + seq![r] + s.subrange(
                0,
                s.len() as int,
            ));
        }
    } else {
        let t = s.drop_first();
        assert(forall|k: int| 0 <= k < j - 1 ==> t[k] == s[k + 1] && !lex_leq(
            r.name,
            #[trigger] t[k].name,
        ));
        lemma_insert_by_name_at(r, t, j - 1);
        assert(seq![s[0]] + (t.subrange(0, j - 1) + seq![r] + t.subrange(j - 1, t.len() as int))
            =~= s.subrange(0, j) + seq![r] + s.subrange(j, s.len() as int));
    }
}

/// Sorts records by name in ascending lexicographic order.
fn sort_records(v: &Vec<PackageVersionInfo>) -> (r: Vec<PackageVersionInfo>)
    ensures
        rec_views(r@) == sort_by_name(rec_views(v@)),
{
    let ghost vv = rec_views(v@);
    let mut out: Vec<PackageVersionInfo> = Vec::new();
    let mut i: usize = 0;
    proof {
        assert(rec_views(out@) =~= sort_by_name(vv.subrange(0, 0)));
    }
    while i < v.len()
        invariant
            i <= v@.len(),
            vv == rec_views(v@),
            rec_views(out@) == sort_by_name(vv.subrange(0, i as int)),
        decreases v@.len() - i,
    {
        let rec = v[i].clone();
        let mut j: usize = 0;
        while j < out.len() && !str_lex_leq(rec.name.as_str(), out[j].name.as_str())
            invariant
                j <= out@.len(),
                rec@ == vv[i as int],
                rec_views(out@) == sort_by_name(vv.subrange(0, i as int)),
                forall|k: int|
                    0 <= k < j ==> !lex_leq(rec@.name, #[trigger] rec_views(out@)[k].name),
            decreases out@.len() - j,
        {
            j = j + 1;
        }
        proof {
            let ov = rec_views(out@);
            lemma_insert_by_name_at(rec@, ov, j as int);
            assert(vv.subrange(0, i + 1 as int).drop_last() =~= vv.subrange(0, i as int));
            assert(vv.subrange(0, i + 1 as int).last() == vv[i as int]);
        }
        let ghost old_out = out@;
        out.insert(j, rec);
        proof {
            let ov = rec_views(old_out);
            assert(rec_views(out@) =~= ov.subrange(0, j as int) + seq![vv[i as int]] + ov.subrange(
                j as int,
                ov.len() as int,
            ));
        }
        i = i + 1;
    }
    proof {
        assert(vv.subrange(0, vv.len() as int) =~= vv);
    }
    out
}

/// Parses the raw output of the "explicitly installed" query; the
/// records are tagged explicit.
pub fn get_explicit_packages(query_output: &str) -> (r: Vec<PackageVersionInfo>)
    ensures
        rec_views(r@) == spec_version_list(query_output@, PackageType::Explicit),
{
    parse_version_list(query_output, PackageType::Explicit)
}

/// Parses the raw output of the "orphan / dependency" query; the
/// records are tagged orphan.
pub fn get_orphan_packages(query_output: &str) -> (r: Vec<PackageVersionInfo>)
    ensures
        rec_views(r@) == spec_version_list(query_output@, PackageType::Orphan),
{
    parse_version_list(query_output, PackageType::Orphan)
}

/// Parses the raw output of the "foreign" query; the records are
/// tagged foreign.
pub fn get_foreign_packages(query_output: &str) -> (r: Vec<PackageVersionInfo>)
    ensures
        rec_views(r@) == spec_version_list(query_output@, PackageType::Foreign),
{
    parse_version_list(query_output, PackageType::Foreign)
}

/// Builds the full catalog from the raw outputs of the three
/// classification queries: parse each, retag explicit records that the
/// foreign query also reported, merge with the orphans, drop duplicate
/// names (the later-merged entry wins) and sort by name ascending.
pub fn get_all_packages(
    explicit_out: &str,
    orphan_out: &str,
    foreign_out: &str,
) -> (r: Vec<PackageVersionInfo>)
    ensures
        rec_views(r@) == spec_catalog(explicit_out@, orphan_out@, foreign_out@),
{
    let list = parse_version_list(explicit_out, PackageType::Explicit);
    let orphans = parse_version_list(orphan_out, PackageType::Orphan);
    let foreign = parse_version_list(foreign_out, PackageType::Foreign);
    let mut merged = reclassify_records(&list, &foreign);
    let ghost reclassified = rec_views(merged@);
    let mut k: usize = 0;
    proof {
        assert(rec_views(merged@) =~= reclassified + rec_views(orphans@).subrange(0, 0));
    }
    while k < orphans.len()
        invariant
            k <= orphans@.len(),
            rec_views(merged@) == reclassified + rec_views(orphans@).subrange(0, k as int),
        decreases orphans@.len() - k,
    {
        let q = orphans[k].clone();
        proof {
            lemma_rec_views_push(merged@, q);
            assert(reclassified + rec_views(orphans@).subrange(0, k + 1 as int) =~= (reclassified
                + rec_views(orphans@).subrange(0, k as int)).push(rec_views(orphans@)[k as int]));
        }
        merged.push(q);
        k = k + 1;
    }
    proof {
        assert(rec_views(orphans@).subrange(0, orphans@.len() as int) =~= rec_views(orphans@));
    }
    let deduped = dedup_records(&merged);
    sort_records(&deduped)
}

} // verus!

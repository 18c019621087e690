use vstd::prelude::*;
use vstd::string::StrSliceExecFns;
use rayon::iter::IntoParallelRefIterator;
use rayon::iter::ParallelIterator;
use crate::dom::{
    attrs_in_fragment, doc_subtrees, frag_attrs, frag_texts, select_in_document, selector_is_valid,
    selector_ok, texts_in_fragment,
};
use crate::error::ExtractError;
use crate::text::{join_spec, join_strings, trim_spec, trim_str};

verus! {

/// A compiled field specification: a CSS selector, and the attribute whose
/// value is wanted, or `None` for the element's text content.
pub struct FieldSpec {
    pub selector: String,
    pub attribute: Option<String>,
}

/// The mathematical content of a `FieldSpec`.
#[verifier::ext_equal]
pub struct FieldSpecV {
    pub selector: Seq<char>,
    pub attribute: Option<Seq<char>>,
}

impl DeepView for FieldSpec {
    type V = FieldSpecV;

    open spec fn deep_view(&self) -> FieldSpecV {
        FieldSpecV { selector: self.selector@, attribute: self.attribute.deep_view() }
    }
}

/// How many times `c` occurs in `s`.
pub open spec fn count_char(s: Seq<char>, c: char) -> nat
    decreases s.len(),
{
    if s.len() == 0 {
        0
    } else {
        count_char(s.drop_last(), c) + (if s.last() == c {
            1nat
        } else {
            0nat
        })
    }
}

/// The position of the first occurrence of `c` in `s`, meaningful when `c`
/// occurs in `s`.
pub open spec fn index_of_first(s: Seq<char>, c: char) -> int
    decreases s.len(),
{
    if s.len() == 0 {
        0
    } else if s[0] == c {
        0
    } else {
        1 + index_of_first(s.drop_first(), c)
    }
}

/// How a textual field specification reads: with no `@` the whole string is
/// the selector and the text content is wanted; with exactly one `@` the left
/// side is the selector and the right side an attribute name; with more than
/// one `@` the specification is malformed.
pub open spec fn split_field_spec(s: Seq<char>) -> Option<FieldSpecV> {
    if count_char(s, '@') == 0 {
        Some(FieldSpecV { selector: s, attribute: None })
    } else if count_char(s, '@') == 1 {
        let p = index_of_first(s, '@');
        Some(FieldSpecV { selector: s.take(p), attribute: Some(s.skip(p + 1)) })
    } else {
        None
    }
}

proof fn lemma_index_of_first(s: Seq<char>, c: char, p: int)
    requires
        0 <= p < s.len(),
        s[p] == c,
        forall|k: int| 0 <= k < p ==> s[k] != c,
    ensures
        index_of_first(s, c) == p,
    decreases p,
{
    if p > 0 {
        let t = s.drop_first();
        assert(forall|k: int| 0 <= k < p - 1 ==> #[trigger] t[k] != c);
        lemma_index_of_first(t, c, p - 1);
    }
}

/// Splits a textual field specification into its selector and optional
/// attribute name; `None` when the specification holds more than one `@`.
pub fn parse_selector_spec(spec_str: &str) -> (r: Option<FieldSpec>)
    ensures
        r.deep_view() == split_field_spec(spec_str@),
{
    let n = spec_str.unicode_len();
    let mut i: usize = 0;
    let mut cnt: usize = 0;
    let mut first: usize = 0;
    proof {
        assert(spec_str@.take(0) =~= Seq::<char>::empty());
    }
    while i < n
        invariant
            0 <= i <= n,
            n == spec_str@.len(),
            cnt <= i,
            cnt == count_char(spec_str@.take(i as int), '@'),
            cnt > 0 ==> first < i && spec_str@[first as int] == '@' && (forall|k: int|
                0 <= k < first ==> spec_str@[k] != '@'),
            cnt == 0 ==> forall|k: int| 0 <= k < i ==> spec_str@[k] != '@',
        decreases n - i,
    {
        let c = spec_str.get_char(i);
        proof {
            assert(spec_str@.take(i + 1).drop_last() =~= spec_str@.take(i as int));
            assert(spec_str@.take(i + 1).last() == spec_str@[i as int]);
        }
        if c == '@' {
            if cnt == 0 {
                first = i;
            }
            cnt = cnt + 1;
        }
        i = i + 1;
    }
    proof {
        assert(spec_str@.take(n as int) =~= spec_str@);
    }
    if cnt == 0 {
        Some(FieldSpec { selector: spec_str.to_owned(), attribute: None })
    } else if cnt == 1 {
        proof {
            lemma_index_of_first(spec_str@, '@', first as int);
            assert(spec_str@.subrange(0, first as int) =~= spec_str@.take(first as int));
            assert(spec_str@.subrange(first + 1, n as int) =~= spec_str@.skip(first + 1));
        }
        let sel = spec_str.substring_char(0, first);
        let attr = spec_str.substring_char(first + 1, n);
        Some(FieldSpec { selector: sel.to_owned(), attribute: Some(attr.to_owned()) })
    } else {
        None
    }
}

/// Whether a textual field specification is well formed and its selector part
/// compiles.
pub open spec fn mapping_entry_ok(spec_str: Seq<char>) -> bool {
    match split_field_spec(spec_str) {
        Some(f) => selector_ok(f.selector),
        None => false,
    }
}

/// Whether every entry of a field mapping is well formed.
pub open spec fn mappings_ok(ms: Seq<(Seq<char>, Seq<char>)>) -> bool {
    forall|i: int| 0 <= i < ms.len() ==> mapping_entry_ok((#[trigger] ms[i]).1)
}

/// The compiled form of one mapping entry, meaningful when the entry is well
/// formed.
pub open spec fn compiled_entry(name: Seq<char>, spec_str: Seq<char>) -> (Seq<char>, FieldSpecV) {
    match split_field_spec(spec_str) {
        Some(f) => (name, f),
        None => (name, FieldSpecV { selector: spec_str, attribute: None }),
    }
}

/// The compiled form of a field mapping, entry by entry, in order.
pub open spec fn compile_spec(ms: Seq<(Seq<char>, Seq<char>)>) -> Seq<(Seq<char>, FieldSpecV)> {
    ms.map_values(|m: (Seq<char>, Seq<char>)| compiled_entry(m.0, m.1))
}

/// The position of the first mapping entry that is not well formed,
/// meaningful when one exists.
pub open spec fn first_bad(ms: Seq<(Seq<char>, Seq<char>)>) -> int
    decreases ms.len(),
{
    if ms.len() == 0 {
        0
    } else if !mapping_entry_ok(ms[0].1) {
        0
    } else {
        1 + first_bad(ms.drop_first())
    }
}

/// The selector text that a `Selector` error reports for a bad entry: the
/// selector part when the specification splits, the whole specification when
/// it does not.
pub open spec fn bad_entry_selector(spec_str: Seq<char>) -> Seq<char> {
    match split_field_spec(spec_str) {
        Some(f) => f.selector,
        None => spec_str,
    }
}

proof fn lemma_first_bad(ms: Seq<(Seq<char>, Seq<char>)>, i: int)
    requires
        0 <= i < ms.len(),
        !mapping_entry_ok(ms[i].1),
        forall|k: int| 0 <= k < i ==> mapping_entry_ok((#[trigger] ms[k]).1),
    ensures
        first_bad(ms) == i,
    decreases i,
{
    if i > 0 {
        let t = ms.drop_first();
        assert(forall|k: int| 0 <= k < i - 1 ==> mapping_entry_ok((#[trigger] t[k]).1));
        lemma_first_bad(t, i - 1);
    }
}

/// Compiles a field mapping, failing fast on the first entry whose
/// specification is malformed or whose selector does not compile.
pub fn compile_field_mappings(mappings: &Vec<(String, String)>) -> (r: Result<
    Vec<(String, FieldSpec)>,
    ExtractError,
>)
    ensures
        r is Ok <==> mappings_ok(mappings.deep_view()),
        r matches Ok(v) ==> v.deep_view() == compile_spec(mappings.deep_view()),
        r is Err ==> !mappings_ok(mappings.deep_view()),
        r matches Err(e) ==> ({
            let b = first_bad(mappings.deep_view());
            &&& e matches ExtractError::Selector { selector, field }
            &&& selector@ == bad_entry_selector(mappings.deep_view()[b].1)
            &&& field matches Some(f)
            &&& f@ == mappings.deep_view()[b].0
        }),
{
    let ghost ms = mappings.deep_view();
    let mut out: Vec<(String, FieldSpec)> = Vec::new();
    let mut i: usize = 0;
    while i < mappings.len()
        invariant
            0 <= i <= mappings.len(),
            ms == mappings.deep_view(),
            ms.len() == mappings.len(),
            forall|k: int| 0 <= k < i ==> mapping_entry_ok((#[trigger] ms[k]).1),
            out.deep_view() =~= compile_spec(ms.take(i as int)),
        decreases mappings.len() - i,
    {
        let name = mappings[i].0.clone();
        let spec_str = &mappings[i].1;
        proof {
            assert(ms[i as int] == (mappings@[i as int].0@, mappings@[i as int].1@));
        }
        match parse_selector_spec(spec_str.as_str()) {
            None => {
                proof {
                    lemma_first_bad(ms, i as int);
                }
                return Err(
                    ExtractError::Selector { selector: spec_str.clone(), field: Some(name) },
                );
            },
            Some(fs) => {
                if !selector_is_valid(fs.selector.as_str()) {
                    proof {
                        lemma_first_bad(ms, i as int);
                    }
                    return Err(
                        ExtractError::Selector { selector: fs.selector, field: Some(name) },
                    );
                }
                out.push((name, fs));
                proof {
                    assert(compile_spec(ms.take(i + 1)) =~= compile_spec(ms.take(i as int)).push(
                        compiled_entry(ms[i as int].0, ms[i as int].1),
                    ));
                }
            },
        }
        i = i + 1;
    }
    proof {
        assert(ms.take(ms.len() as int) =~= ms);
    }
    Ok(out)
}

/// Whether every selector of a compiled field mapping compiles.
pub open spec fn fields_wf(fs: Seq<(Seq<char>, FieldSpecV)>) -> bool {
    forall|i: int| 0 <= i < fs.len() ==> selector_ok(((#[trigger] fs[i]).1).selector)
}

/// The value a field extracts from a container subtree: the named attribute
/// of the first matching element, or the first matching element's text nodes
/// joined with single spaces and trimmed; the empty string when nothing
/// matches or the attribute is absent.
pub open spec fn field_value_spec(container: Seq<char>, f: FieldSpecV) -> Seq<char> {
    match f.attribute {
        Some(a) => {
            let l = frag_attrs(container, f.selector, a);
            if l.len() == 0 {
                Seq::empty()
            } else {
                match l[0] {
                    Some(v) => v,
                    None => Seq::empty(),
                }
            }
        },
        None => {
            let l = frag_texts(container, f.selector);
            if l.len() == 0 {
                Seq::empty()
            } else {
                trim_spec(join_spec(l[0], seq![' ']))
            }
        },
    }
}

/// One extracted record: every field of the mapping, in mapping order, with
/// the value its selector finds in the container.
pub open spec fn record_spec(container: Seq<char>, fs: Seq<(Seq<char>, FieldSpecV)>) -> Seq<
    (Seq<char>, Seq<char>),
> {
    fs.map_values(|f: (Seq<char>, FieldSpecV)| (f.0, field_value_spec(container, f.1)))
}

/// All records of one document: one per container matching the container
/// selector, in document order.
pub open spec fn extract_spec(
    html: Seq<char>,
    container_sel: Seq<char>,
    fs: Seq<(Seq<char>, FieldSpecV)>,
) -> Seq<Seq<(Seq<char>, Seq<char>)>> {
    doc_subtrees(html, container_sel).map_values(|c: Seq<char>| record_spec(c, fs))
}

/// Resolves one field against a container subtree.
fn extract_field(container: &str, fs: &FieldSpec) -> (r: String)
    requires
        selector_ok(fs.deep_view().selector),
    ensures
        r@ == field_value_spec(container@, fs.deep_view()),
{
    match &fs.attribute {
        Some(a) => {
            let l = attrs_in_fragment(container, fs.selector.as_str(), a.as_str());
            if l.len() == 0 {
                String::new()
            } else {
                proof {
                    assert(l.deep_view()[0] == l@[0].deep_view());
                }
                match &l[0] {
                    Some(v) => v.clone(),
                    None => String::new(),
                }
            }
        },
        None => {
            let l = texts_in_fragment(container, fs.selector.as_str());
            if l.len() == 0 {
                String::new()
            } else {
                proof {
                    assert(l.deep_view()[0] == l@[0].deep_view());
                    reveal_strlit(" ");
                    assert(" "@ =~= seq![' ']);
                }
                let joined = join_strings(&l[0], " ");
                trim_str(joined.as_str())
            }
        },
    }
}

/// Builds the record of one container: every mapped field, in mapping order.
fn extract_record(container: &str, fields: &Vec<(String, FieldSpec)>) -> (r: Vec<(String, String)>)
    requires
        fields_wf(fields.deep_view()),
    ensures
        r.deep_view() == record_spec(container@, fields.deep_view()),
{
    let ghost fs = fields.deep_view();
    let mut r: Vec<(String, String)> = Vec::new();
    let mut i: usize = 0;
    while i < fields.len()
        invariant
            0 <= i <= fields.len(),
            fs == fields.deep_view(),
            fs.len() == fields.len(),
            fields_wf(fs),
            r.deep_view() =~= record_spec(container@, fs.take(i as int)),
        decreases fields.len() - i,
    {
        proof {
            assert(fs[i as int] == (fields@[i as int].0@, fields@[i as int].1.deep_view()));
        }
        let name = fields[i].0.clone();
        let value = extract_field(container, &fields[i].1);
        r.push((name, value));
        proof {
            assert(record_spec(container@, fs.take(i + 1)) =~= record_spec(
                container@,
                fs.take(i as int),
            ).push((fs[i as int].0, field_value_spec(container@, fs[i as int].1))));
        }
        i = i + 1;
    }
    proof {
        assert(fs.take(fs.len() as int) =~= fs);
    }
    r
}

/// Extracts the records of one document, given an already validated container
/// selector and compiled field mapping.
pub fn extract_single_page(
    html: &str,
    container_selector: &str,
    fields: &Vec<(String, FieldSpec)>,
) -> (r: Vec<Vec<(String, String)>>)
    requires
        selector_ok(container_selector@),
        fields_wf(fields.deep_view()),
    ensures
        r.deep_view() == extract_spec(html@, container_selector@, fields.deep_view()),
{
    let ghost fs = fields.deep_view();
    let containers = select_in_document(html, container_selector);
    let ghost cs = doc_subtrees(html@, container_selector@);
    let mut r: Vec<Vec<(String, String)>> = Vec::new();
    let mut i: usize = 0;
    while i < containers.len()
        invariant
            0 <= i <= containers.len(),
            fs == fields.deep_view(),
            fields_wf(fs),
            containers.deep_view() == cs,
            cs == doc_subtrees(html@, container_selector@),
            containers.len() == cs.len(),
            r.deep_view() =~= extract_spec(html@, container_selector@, fs).take(i as int),
        decreases containers.len() - i,
    {
        proof {
            assert(containers.deep_view()[i as int] == containers@[i as int]@);
        }
        let record = extract_record(containers[i].as_str(), fields);
        r.push(record);
        proof {
            assert(extract_spec(html@, container_selector@, fs).take(i + 1) =~= extract_spec(
                html@,
                container_selector@,
                fs,
            ).take(i as int).push(record_spec(cs[i as int], fs)));
        }
        i = i + 1;
    }
    proof {
        assert(extract_spec(html@, container_selector@, fs).take(cs.len() as int) =~= extract_spec(
            html@,
            container_selector@,
            fs,
        ));
    }
    r
}

/// Extracts structured records from one HTML document: one record per element
/// matching `container_selector`, each record holding every field of
/// `field_mappings`, in mapping order. Fails fast with a `Selector` error on
/// an invalid container selector or a malformed or invalid field
/// specification; this one policy holds for the single and the bulk path
/// alike. Field names are meant to be unique, as entries of a map; a name
/// given twice is kept as given and appears twice in every record, in mapping
/// order.
pub fn extract_data(
    html: &str,
    container_selector: &str,
    field_mappings: &Vec<(String, String)>,
) -> (r: Result<Vec<Vec<(String, String)>>, ExtractError>)
    ensures
        r is Ok <==> selector_ok(container_selector@) && mappings_ok(field_mappings.deep_view()),
        r matches Ok(v) ==> v.deep_view() == extract_spec(
            html@,
            container_selector@,
            compile_spec(field_mappings.deep_view()),
        ),
        !selector_ok(container_selector@) ==> (r matches Err(e) && e matches
            ExtractError::Selector { selector, field } && selector@ == container_selector@
            && field is None),
        selector_ok(container_selector@) && !mappings_ok(field_mappings.deep_view()) ==> ({
            let b = first_bad(field_mappings.deep_view());
            &&& r matches Err(e)
            &&& e matches ExtractError::Selector { selector, field }
            &&& selector@ == bad_entry_selector(field_mappings.deep_view()[b].1)
            &&& field matches Some(f)
            &&& f@ == field_mappings.deep_view()[b].0
        }),
{
    if !selector_is_valid(container_selector) {
        return Err(
            ExtractError::Selector { selector: container_selector.to_owned(), field: None },
        );
    }
    let fields = match compile_field_mappings(field_mappings) {
        Ok(fields) => fields,
        Err(e) => {
            return Err(e);
        },
    };
    proof {
        lemma_compiled_fields_wf(field_mappings.deep_view());
    }
    Ok(extract_single_page(html, container_selector, &fields))
}

/// The records of every document of a batch: index `i` holds what extracting
/// from document `i` alone gives.
pub open spec fn extract_bulk_spec(
    pages: Seq<Seq<char>>,
    container_sel: Seq<char>,
    fs: Seq<(Seq<char>, FieldSpecV)>,
) -> Seq<Seq<Seq<(Seq<char>, Seq<char>)>>> {
    pages.map_values(|p: Seq<char>| extract_spec(p, container_sel, fs))
}

/// Relies on rayon's `par_iter`, `ParallelIterator::map` and `collect`: an
/// indexed parallel map collects its results in the order of its input,
/// whatever order the workers finish in. Each page is handled by
/// `extract_single_page`, whose verified postcondition gives each element of
/// the result.
#[verifier::external_body]
fn par_extract_pages(
    pages: &Vec<String>,
    container_selector: &str,
    fields: &Vec<(String, FieldSpec)>,
) -> (r: Vec<Vec<Vec<(String, String)>>>)
    requires
        selector_ok(container_selector@),
        fields_wf(fields.deep_view()),
    ensures
        r.deep_view() == extract_bulk_spec(
            pages.deep_view(),
            container_selector@,
            fields.deep_view(),
        ),
{
    pages.par_iter().map(|p| extract_single_page(p, container_selector, fields)).collect()
}

/// Extracts structured records from each of `html_pages` with one shared
/// container selector and field mapping, processing the pages in parallel and
/// returning the per-page results in input order. The failure policy and the
/// treatment of field names are those of `extract_data`: fail fast before any
/// page is processed, and keep a duplicated field name as given.
pub fn extract_data_bulk(
    html_pages: &Vec<String>,
    container_selector: &str,
    field_mappings: &Vec<(String, String)>,
) -> (r: Result<Vec<Vec<Vec<(String, String)>>>, ExtractError>)
    ensures
        r is Ok <==> selector_ok(container_selector@) && mappings_ok(field_mappings.deep_view()),
        r matches Ok(v) ==> v.deep_view() == extract_bulk_spec(
            html_pages.deep_view(),
            container_selector@,
            compile_spec(field_mappings.deep_view()),
        ),
        !selector_ok(container_selector@) ==> (r matches Err(e) && e matches
            ExtractError::Selector { selector, field } && selector@ == container_selector@
            && field is None),
        selector_ok(container_selector@) && !mappings_ok(field_mappings.deep_view()) ==> ({
            let b = first_bad(field_mappings.deep_view());
            &&& r matches Err(e)
            &&& e matches ExtractError::Selector { selector, field }
            &&& selector@ == bad_entry_selector(field_mappings.deep_view()[b].1)
            &&& field matches Some(f)
            &&& f@ == field_mappings.deep_view()[b].0
        }),
{
    if !selector_is_valid(container_selector) {
        return Err(
            ExtractError::Selector { selector: container_selector.to_owned(), field: None },
        );
    }
    let fields = match compile_field_mappings(field_mappings) {
        Ok(fields) => fields,
        Err(e) => {
            return Err(e);
        },
    };
    proof {
        lemma_compiled_fields_wf(field_mappings.deep_view());
    }
    Ok(par_extract_pages(html_pages, container_selector, &fields))
}

/// Every record of an extraction holds exactly the keys of the field mapping,
/// in mapping order, whatever the fields matched.
pub proof fn lemma_record_keys_match_mapping(
    html: Seq<char>,
    container_sel: Seq<char>,
    fs: Seq<(Seq<char>, FieldSpecV)>,
)
    ensures
        forall|i: int|
            0 <= i < extract_spec(html, container_sel, fs).len() ==> (#[trigger] extract_spec(
                html,
                container_sel,
                fs,
            )[i]).map_values(|p: (Seq<char>, Seq<char>)| p.0) =~= fs.map_values(
                |f: (Seq<char>, FieldSpecV)| f.0,
            ),
{
    assert forall|i: int| 0 <= i < extract_spec(html, container_sel, fs).len() implies (
    #[trigger] extract_spec(html, container_sel, fs)[i]).map_values(
        |p: (Seq<char>, Seq<char>)| p.0,
    ) =~= fs.map_values(|f: (Seq<char>, FieldSpecV)| f.0) by {
        let c = doc_subtrees(html, container_sel)[i];
        assert(extract_spec(html, container_sel, fs)[i] == record_spec(c, fs));
    }
}

/// A batch extraction yields one result per input document, and the result at
/// index `i` is exactly what extracting from document `i` alone yields.
pub proof fn lemma_bulk_matches_single(
    pages: Seq<Seq<char>>,
    container_sel: Seq<char>,
    fs: Seq<(Seq<char>, FieldSpecV)>,
)
    ensures
        extract_bulk_spec(pages, container_sel, fs).len() == pages.len(),
        forall|i: int|
            0 <= i < pages.len() ==> #[trigger] extract_bulk_spec(pages, container_sel, fs)[i]
                == extract_spec(pages[i], container_sel, fs),
{
}

/// Extracting an attribute from a first matching element that lacks the
/// attribute yields the empty string, not an error.
pub proof fn lemma_absent_attribute_empty(container: Seq<char>, sel: Seq<char>, attr: Seq<char>)
    ensures
        (frag_attrs(container, sel, attr).len() > 0 && frag_attrs(container, sel, attr)[0] is None)
            ==> field_value_spec(
            container,
            FieldSpecV { selector: sel, attribute: Some(attr) },
        ) == Seq::<char>::empty(),
{
}

/// A container selector matching no element yields an empty record sequence,
/// not an error.
pub proof fn lemma_no_container_no_records(
    html: Seq<char>,
    container_sel: Seq<char>,
    fs: Seq<(Seq<char>, FieldSpecV)>,
)
    ensures
        doc_subtrees(html, container_sel).len() == 0 ==> extract_spec(
            html,
            container_sel,
            fs,
        ).len() == 0,
{
}

/// A well-formed mapping compiles to a well-formed field table.
proof fn lemma_compiled_fields_wf(ms: Seq<(Seq<char>, Seq<char>)>)
    requires
        mappings_ok(ms),
    ensures
        fields_wf(compile_spec(ms)),
{
    assert forall|i: int| 0 <= i < compile_spec(ms).len() implies selector_ok(
        ((#[trigger] compile_spec(ms)[i]).1).selector,
    ) by {
        assert(mapping_entry_ok(ms[i].1));
    }
}

} // verus!

//! The canonical release record and its mathematical view.

use vstd::prelude::*;

pub mod vendor;

verus! {

/// A whole source failed for this run: the upstream could not be reached
/// or its top-level response was malformed.  The failure is terminal for
/// that source only.
#[derive(Debug)]
pub struct FetchError {
    pub message: String,
}

/// One candidate item whose name or markup did not match the expected
/// structural pattern.  The item is dropped and the run continues; the
/// offending name is kept for the log line.
#[derive(Debug)]
pub struct ParseFailure {
    pub name: String,
}

/// Mathematical view of a release record: every field as a plain sequence
/// value, so that equality of views is structural equality of records.
#[verifier::ext_equal]
pub struct JvmDataView {
    pub architecture: Seq<char>,
    pub checksum: Option<Seq<char>>,
    pub checksum_url: Option<Seq<char>>,
    pub features: Option<Seq<Seq<char>>>,
    pub file_type: Seq<char>,
    pub filename: Seq<char>,
    pub image_type: Seq<char>,
    pub java_version: Seq<char>,
    pub jvm_impl: Seq<char>,
    pub os: Seq<char>,
    pub release_type: Seq<char>,
    pub size: Option<i32>,
    pub url: Seq<char>,
    pub vendor: Seq<char>,
    pub version: Seq<char>,
}

/// One canonical release record.  A record is only built once all of its
/// required fields have been parsed and canonicalized; the optional fields
/// carry best-effort metadata.
pub struct JvmData {
    pub architecture: String,
    pub checksum: Option<String>,
    pub checksum_url: Option<String>,
    pub features: Option<Vec<String>>,
    pub file_type: String,
    pub filename: String,
    pub image_type: String,
    pub java_version: String,
    pub jvm_impl: String,
    pub os: String,
    pub release_type: String,
    pub size: Option<i32>,
    pub url: String,
    pub vendor: String,
    pub version: String,
}

/// View of an optional string field.
pub open spec fn opt_view(o: Option<String>) -> Option<Seq<char>> {
    match o {
        Some(s) => Some(s@),
        None => None,
    }
}

/// View of the optional feature-tag list.
pub open spec fn features_view(o: Option<Vec<String>>) -> Option<Seq<Seq<char>>> {
    match o {
        Some(v) => Some(v.deep_view()),
        None => None,
    }
}

impl View for JvmData {
    type V = JvmDataView;

    open spec fn view(&self) -> JvmDataView {
        JvmDataView {
            architecture: self.architecture@,
            checksum: opt_view(self.checksum),
            checksum_url: opt_view(self.checksum_url),
            features: features_view(self.features),
            file_type: self.file_type@,
            filename: self.filename@,
            image_type: self.image_type@,
            java_version: self.java_version@,
            jvm_impl: self.jvm_impl@,
            os: self.os@,
            release_type: self.release_type@,
            size: self.size,
            url: self.url@,
            vendor: self.vendor@,
            version: self.version@,
        }
    }
}

/// The record invariant on feature tags: when the tag list is present it
/// is non-empty, and every tag is already in folded (lower-case) form.
pub open spec fn features_wf(d: JvmDataView) -> bool {
    match d.features {
        Some(fs) => fs.len() > 0 && forall|i: int| 0 <= i < fs.len() ==> #[trigger] fs[i]
            == crate::text::lower_seq(fs[i]),
        None => true,
    }
}

/// Equality of two optional strings, decided by their views.
fn opt_str_eq(a: &Option<String>, b: &Option<String>) -> (r: bool)
    ensures
        r == (opt_view(*a) == opt_view(*b)),
{
    match (a, b) {
        (Some(x), Some(y)) => {
            let e = crate::text::str_eq(x.as_str(), y.as_str());
            proof {
                if e {
                    assert(opt_view(*a) =~= opt_view(*b));
                }
            }
            e
        },
        (None, None) => true,
        _ => false,
    }
}

/// Equality of two optional feature lists, decided by their views.
#[verifier::loop_isolation(false)]
fn features_eq(a: &Option<Vec<String>>, b: &Option<Vec<String>>) -> (r: bool)
    ensures
        r == (features_view(*a) == features_view(*b)),
{
    match (a, b) {
        (Some(x), Some(y)) => {
            if x.len() != y.len() {
                assert(features_view(*a).unwrap().len() != features_view(*b).unwrap().len());
                return false;
            }
            let n = x.len();
            let mut i: usize = 0;
            while i < n
                invariant
                    n == x@.len(),
                    n == y@.len(),
                    i <= n,
                    forall|j: int| 0 <= j < i ==> x@[j]@ == y@[j]@,
                decreases n - i,
            {
                if !crate::text::str_eq(x[i].as_str(), y[i].as_str()) {
                    assert(x.deep_view()[i as int] != y.deep_view()[i as int]);
                    return false;
                }
                i = i + 1;
            }
            proof {
                assert(x.deep_view() =~= y.deep_view());
            }
            true
        },
        (None, None) => true,
        _ => false,
    }
}

/// Equality of two optional sizes.
fn opt_size_eq(a: &Option<i32>, b: &Option<i32>) -> (r: bool)
    ensures
        r == (*a == *b),
{
    match (a, b) {
        (Some(x), Some(y)) => *x == *y,
        (None, None) => true,
        _ => false,
    }
}

/// Copy of an optional string, field for field.
fn clone_opt_string(o: &Option<String>) -> (r: Option<String>)
    ensures
        opt_view(r) == opt_view(*o),
{
    match o {
        Some(s) => Some(s.clone()),
        None => None,
    }
}

/// Copy of the optional feature list, tag for tag.
#[verifier::loop_isolation(false)]
fn clone_features(o: &Option<Vec<String>>) -> (r: Option<Vec<String>>)
    ensures
        features_view(r) == features_view(*o),
{
    match o {
        Some(v) => {
            let n = v.len();
            let mut out: Vec<String> = Vec::new();
            let mut i: usize = 0;
            while i < n
                invariant
                    i <= n,
                    out@.len() == i,
                    forall|k: int| 0 <= k < i ==> out@[k] == v@[k],
                decreases n - i,
            {
                out.push(v[i].clone());
                i = i + 1;
            }
            proof {
                assert(out.deep_view() =~= v.deep_view());
            }
            Some(out)
        },
        None => None,
    }
}

impl JvmData {
    /// A copy of the record with every field equal.
    pub fn clone_record(&self) -> (r: JvmData)
        ensures
            r@ == self@,
    {
        let r = JvmData {
            architecture: self.architecture.clone(),
            checksum: clone_opt_string(&self.checksum),
            checksum_url: clone_opt_string(&self.checksum_url),
            features: clone_features(&self.features),
            file_type: self.file_type.clone(),
            filename: self.filename.clone(),
            image_type: self.image_type.clone(),
            java_version: self.java_version.clone(),
            jvm_impl: self.jvm_impl.clone(),
            os: self.os.clone(),
            release_type: self.release_type.clone(),
            size: self.size,
            url: self.url.clone(),
            vendor: self.vendor.clone(),
            version: self.version.clone(),
        };
        proof {
            assert(r@ =~= self@);
        }
        r
    }

    /// Structural equality: two records are the same exactly when every
    /// field agrees.  This is the identity the deduplicating merge uses.
    pub fn same_record(&self, other: &JvmData) -> (r: bool)
        ensures
            r == (self@ == other@),
    {
        let r = crate::text::str_eq(self.architecture.as_str(), other.architecture.as_str())
            && opt_str_eq(&self.checksum, &other.checksum)
            && opt_str_eq(&self.checksum_url, &other.checksum_url)
            && features_eq(&self.features, &other.features)
            && crate::text::str_eq(self.file_type.as_str(), other.file_type.as_str())
            && crate::text::str_eq(self.filename.as_str(), other.filename.as_str())
            && crate::text::str_eq(self.image_type.as_str(), other.image_type.as_str())
            && crate::text::str_eq(self.java_version.as_str(), other.java_version.as_str())
            && crate::text::str_eq(self.jvm_impl.as_str(), other.jvm_impl.as_str())
            && crate::text::str_eq(self.os.as_str(), other.os.as_str())
            && crate::text::str_eq(self.release_type.as_str(), other.release_type.as_str())
            && opt_size_eq(&self.size, &other.size)
            && crate::text::str_eq(self.url.as_str(), other.url.as_str())
            && crate::text::str_eq(self.vendor.as_str(), other.vendor.as_str())
            && crate::text::str_eq(self.version.as_str(), other.version.as_str());
        proof {
            if r {
                assert(self@ =~= other@);
            }
        }
        r
    }
}

/// View of one exported field value.
pub enum FieldValueView {
    Text(Seq<char>),
    Number(i32),
    Tags(Seq<Seq<char>>),
}

/// One exported field value: a plain string, the artifact size, or the
/// feature-tag list.
pub enum FieldValue {
    Text(String),
    Number(i32),
    Tags(Vec<String>),
}

impl View for FieldValue {
    type V = FieldValueView;

    open spec fn view(&self) -> FieldValueView {
        match self {
            FieldValue::Text(s) => FieldValueView::Text(s@),
            FieldValue::Number(x) => FieldValueView::Number(*x),
            FieldValue::Tags(v) => FieldValueView::Tags(v.deep_view()),
        }
    }
}

/// View of one projected field.
#[verifier::ext_equal]
pub struct ProjectedFieldView {
    pub name: Seq<char>,
    pub value: FieldValueView,
}

/// One field of one exported record: its name and its value.
pub struct ProjectedField {
    pub name: String,
    pub value: FieldValue,
}

impl View for ProjectedField {
    type V = ProjectedFieldView;

    open spec fn view(&self) -> ProjectedFieldView {
        ProjectedFieldView { name: self.name@, value: self.value@ }
    }
}

/// View of a parsed filter map: each key with its accepted values.
pub open spec fn filters_view(v: Vec<(String, Vec<String>)>) -> Seq<(Seq<char>, Seq<Seq<char>>)> {
    v@.map_values(|p: (String, Vec<String>)| (p.0@, p.1.deep_view()))
}

/// The string value a record carries for a filter key, if the key names a
/// string-valued field and the field is present.
pub open spec fn field_value(d: JvmDataView, key: Seq<char>) -> Option<Seq<char>> {
    if key == "architecture"@ {
        Some(d.architecture)
    } else if key == "checksum"@ {
        d.checksum
    } else if key == "checksum_url"@ {
        d.checksum_url
    } else if key == "file_type"@ {
        Some(d.file_type)
    } else if key == "filename"@ {
        Some(d.filename)
    } else if key == "image_type"@ {
        Some(d.image_type)
    } else if key == "java_version"@ {
        Some(d.java_version)
    } else if key == "jvm_impl"@ {
        Some(d.jvm_impl)
    } else if key == "os"@ {
        Some(d.os)
    } else if key == "release_type"@ {
        Some(d.release_type)
    } else if key == "url"@ {
        Some(d.url)
    } else if key == "vendor"@ {
        Some(d.vendor)
    } else if key == "version"@ {
        Some(d.version)
    } else {
        None
    }
}

/// Whether a record satisfies one filter key: for the set-valued
/// `features` key the record's tags must intersect the accepted values;
/// for a string-valued key the record's value must equal one of them; a
/// record without a value for the key does not match.
pub open spec fn key_matches(d: JvmDataView, key: Seq<char>, vals: Seq<Seq<char>>) -> bool {
    if key == "features"@ {
        match d.features {
            Some(fs) => exists|i: int| 0 <= i < fs.len() && vals.contains(#[trigger] fs[i]),
            None => false,
        }
    } else {
        match field_value(d, key) {
            Some(v) => vals.contains(v),
            None => false,
        }
    }
}

/// Whether a record satisfies every supplied filter key.
pub open spec fn record_matches(d: JvmDataView, fm: Seq<(Seq<char>, Seq<Seq<char>>)>) -> bool {
    forall|k: int| 0 <= k < fm.len() ==> key_matches(d, (#[trigger] fm[k]).0, fm[k].1)
}

/// Whether a field is part of the export: a non-empty `keep` list
/// restricts the output to exactly the named fields; otherwise the
/// `exclude` list removes fields from the full set.
pub open spec fn field_selected(name: Seq<char>, inc: Seq<Seq<char>>, exc: Seq<Seq<char>>) -> bool {
    if inc.len() > 0 {
        inc.contains(name)
    } else {
        !exc.contains(name)
    }
}

/// The contribution of one optional string field to the projection.
pub open spec fn sel_text(
    name: Seq<char>,
    o: Option<Seq<char>>,
    inc: Seq<Seq<char>>,
    exc: Seq<Seq<char>>,
) -> Seq<ProjectedFieldView> {
    match o {
        Some(v) => if field_selected(name, inc, exc) {
            seq![ProjectedFieldView { name, value: FieldValueView::Text(v) }]
        } else {
            Seq::empty()
        },
        None => Seq::empty(),
    }
}

/// The contribution of the feature-tag field to the projection.
pub open spec fn sel_tags(
    name: Seq<char>,
    o: Option<Seq<Seq<char>>>,
    inc: Seq<Seq<char>>,
    exc: Seq<Seq<char>>,
) -> Seq<ProjectedFieldView> {
    match o {
        Some(v) => if field_selected(name, inc, exc) {
            seq![ProjectedFieldView { name, value: FieldValueView::Tags(v) }]
        } else {
            Seq::empty()
        },
        None => Seq::empty(),
    }
}

/// The contribution of the size field to the projection.
pub open spec fn sel_num(
    name: Seq<char>,
    o: Option<i32>,
    inc: Seq<Seq<char>>,
    exc: Seq<Seq<char>>,
) -> Seq<ProjectedFieldView> {
    match o {
        Some(v) => if field_selected(name, inc, exc) {
            seq![ProjectedFieldView { name, value: FieldValueView::Number(v) }]
        } else {
            Seq::empty()
        },
        None => Seq::empty(),
    }
}

/// The first half of the canonical field order: `architecture` through
/// `java_version`.
pub open spec fn projected_front(d: JvmDataView, inc: Seq<Seq<char>>, exc: Seq<Seq<char>>) -> Seq<
    ProjectedFieldView,
> {
    sel_text("architecture"@, Some(d.architecture), inc, exc) + sel_text(
        "checksum"@,
        d.checksum,
        inc,
        exc,
    ) + sel_text("checksum_url"@, d.checksum_url, inc, exc) + sel_tags(
        "features"@,
        d.features,
        inc,
        exc,
    ) + sel_text("file_type"@, Some(d.file_type), inc, exc) + sel_text(
        "filename"@,
        Some(d.filename),
        inc,
        exc,
    ) + sel_text("image_type"@, Some(d.image_type), inc, exc) + sel_text(
        "java_version"@,
        Some(d.java_version),
        inc,
        exc,
    )
}

/// The second half of the canonical field order: `jvm_impl` through
/// `version`.
pub open spec fn projected_back(d: JvmDataView, inc: Seq<Seq<char>>, exc: Seq<Seq<char>>) -> Seq<
    ProjectedFieldView,
> {
    sel_text("jvm_impl"@, Some(d.jvm_impl), inc, exc) + sel_text(
        "os"@,
        Some(d.os),
        inc,
        exc,
    ) + sel_text("release_type"@, Some(d.release_type), inc, exc) + sel_num(
        "size"@,
        d.size,
        inc,
        exc,
    ) + sel_text("url"@, Some(d.url), inc, exc) + sel_text("vendor"@, Some(d.vendor), inc, exc)
        + sel_text("version"@, Some(d.version), inc, exc)
}

/// The exported form of one record: its present fields, in the canonical
/// field order, restricted by the keep and exclude lists.
pub open spec fn projected(d: JvmDataView, inc: Seq<Seq<char>>, exc: Seq<Seq<char>>) -> Seq<
    ProjectedFieldView,
> {
    projected_front(d, inc, exc) + projected_back(d, inc, exc)
}

/// Copy of a list of strings, element for element.
#[verifier::loop_isolation(false)]
fn clone_strings(v: &Vec<String>) -> (r: Vec<String>)
    ensures
        r@ == v@,
{
    let n = v.len();
    let mut out: Vec<String> = Vec::new();
    let mut i: usize = 0;
    while i < n
        invariant
            i <= n,
            out@.len() == i,
            forall|k: int| 0 <= k < i ==> out@[k] == v@[k],
        decreases n - i,
    {
        out.push(v[i].clone());
        i = i + 1;
    }
    proof {
        assert(out@ =~= v@);
    }
    out
}

/// Whether a field name survives the keep and exclude lists.
fn selected_exec(name: &str, keep: &Vec<String>, exclude: &Vec<String>) -> (r: bool)
    ensures
        r == field_selected(name@, keep.deep_view(), exclude.deep_view()),
{
    if keep.len() > 0 {
        crate::text::contains_str(keep, name)
    } else {
        !crate::text::contains_str(exclude, name)
    }
}

/// The record's value for one filter key, copied out.
fn field_value_exec(item: &JvmData, key: &str) -> (r: Option<String>)
    ensures
        opt_view(r) == field_value(item@, key@),
{
    if crate::text::str_eq(key, "architecture") {
        Some(item.architecture.clone())
    } else if crate::text::str_eq(key, "checksum") {
        clone_opt_string(&item.checksum)
    } else if crate::text::str_eq(key, "checksum_url") {
        clone_opt_string(&item.checksum_url)
    } else if crate::text::str_eq(key, "file_type") {
        Some(item.file_type.clone())
    } else if crate::text::str_eq(key, "filename") {
        Some(item.filename.clone())
    } else if crate::text::str_eq(key, "image_type") {
        Some(item.image_type.clone())
    } else if crate::text::str_eq(key, "java_version") {
        Some(item.java_version.clone())
    } else if crate::text::str_eq(key, "jvm_impl") {
        Some(item.jvm_impl.clone())
    } else if crate::text::str_eq(key, "os") {
        Some(item.os.clone())
    } else if crate::text::str_eq(key, "release_type") {
        Some(item.release_type.clone())
    } else if crate::text::str_eq(key, "url") {
        Some(item.url.clone())
    } else if crate::text::str_eq(key, "vendor") {
        Some(item.vendor.clone())
    } else if crate::text::str_eq(key, "version") {
        Some(item.version.clone())
    } else {
        None
    }
}

/// Whether the record satisfies one filter key.
#[verifier::loop_isolation(false)]
fn key_matches_exec(item: &JvmData, key: &str, vals: &Vec<String>) -> (r: bool)
    ensures
        r == key_matches(item@, key@, vals.deep_view()),
{
    if crate::text::str_eq(key, "features") {
        match &item.features {
            Some(fs) => {
                let n = fs.len();
                let mut j: usize = 0;
                while j < n
                    invariant
                        j <= n,
                        forall|k: int| 0 <= k < j ==> !vals.deep_view().contains(
                            #[trigger] fs.deep_view()[k],
                        ),
                    decreases n - j,
                {
                    if crate::text::contains_str(vals, fs[j].as_str()) {
                        proof {
                            assert(item@.features == Some(fs.deep_view()));
                            assert(item@.features.unwrap()[j as int] == fs.deep_view()[j as int]);
                            assert(vals.deep_view().contains(item@.features.unwrap()[j as int]));
                        }
                        return true;
                    }
                    j = j + 1;
                }
                false
            },
            None => false,
        }
    } else {
        match field_value_exec(item, key) {
            Some(v) => crate::text::contains_str(vals, v.as_str()),
            None => false,
        }
    }
}

impl JvmData {
    /// Whether this record satisfies every supplied filter key.
    #[verifier::loop_isolation(false)]
    pub fn filter(item: &JvmData, filters: &Vec<(String, Vec<String>)>) -> (r: bool)
        ensures
            r == record_matches(item@, filters_view(*filters)),
    {
        let n = filters.len();
        let mut i: usize = 0;
        while i < n
            invariant
                i <= n,
                forall|k: int| 0 <= k < i ==> key_matches(
                    item@,
                    (#[trigger] filters_view(*filters)[k]).0,
                    filters_view(*filters)[k].1,
                ),
            decreases n - i,
        {
            let p = &filters[i];
            if !key_matches_exec(item, p.0.as_str(), &p.1) {
                assert(!key_matches(
                    item@,
                    filters_view(*filters)[i as int].0,
                    filters_view(*filters)[i as int].1,
                ));
                return false;
            }
            i = i + 1;
        }
        true
    }

    /// The first half of the projection.
    #[verifier::rlimit(100)]
    fn map_front(item: &JvmData, keep: &Vec<String>, exclude: &Vec<String>) -> (r: Vec<
        ProjectedField,
    >)
        ensures
            r@.map_values(|f: ProjectedField| f@) == projected_front(
                item@,
                keep.deep_view(),
                exclude.deep_view(),
            ),
    {
        let ghost inc = keep.deep_view();
        let ghost exc = exclude.deep_view();
        let mut out: Vec<ProjectedField> = Vec::new();
        let ghost mut acc: Seq<ProjectedFieldView> = Seq::empty();
        proof {
            assert(out@.map_values(|f: ProjectedField| f@) =~= acc);
        }
        if selected_exec("architecture", keep, exclude) {
            out.push(
                ProjectedField {
                    name: String::from_str("architecture"),
                    value: FieldValue::Text(item.architecture.clone()),
                },
            );
        }
        proof {
            acc = acc + sel_text("architecture"@, Some(item@.architecture), inc, exc);
            assert(out@.map_values(|f: ProjectedField| f@) =~= acc);
        }
        if let Some(c) = &item.checksum {
            if selected_exec("checksum", keep, exclude) {
                out.push(
                    ProjectedField {
                        name: String::from_str("checksum"),
                        value: FieldValue::Text(c.clone()),
                    },
                );
            }
        }
        proof {
            acc = acc + sel_text("checksum"@, item@.checksum, inc, exc);
            assert(out@.map_values(|f: ProjectedField| f@) =~= acc);
        }
        if let Some(c) = &item.checksum_url {
            if selected_exec("checksum_url", keep, exclude) {
                out.push(
                    ProjectedField {
                        name: String::from_str("checksum_url"),
                        value: FieldValue::Text(c.clone()),
                    },
                );
            }
        }
        proof {
            acc = acc + sel_text("checksum_url"@, item@.checksum_url, inc, exc);
            assert(out@.map_values(|f: ProjectedField| f@) =~= acc);
        }
        if let Some(f) = &item.features {
            if selected_exec("features", keep, exclude) {
                out.push(
                    ProjectedField {
                        name: String::from_str("features"),
                        value: FieldValue::Tags(clone_strings(f)),
                    },
                );
            }
        }
        proof {
            acc = acc + sel_tags("features"@, item@.features, inc, exc);
            assert(out@.map_values(|f: ProjectedField| f@) =~= acc);
        }
        if selected_exec("file_type", keep, exclude) {
            out.push(
                ProjectedField {
                    name: String::from_str("file_type"),
                    value: FieldValue::Text(item.file_type.clone()),
                },
            );
        }
        proof {
            acc = acc + sel_text("file_type"@, Some(item@.file_type), inc, exc);
            assert(out@.map_values(|f: ProjectedField| f@) =~= acc);
        }
        if selected_exec("filename", keep, exclude) {
            out.push(
                ProjectedField {
                    name: String::from_str("filename"),
                    value: FieldValue::Text(item.filename.clone()),
                },
            );
        }
        proof {
            acc = acc + sel_text("filename"@, Some(item@.filename), inc, exc);
            assert(out@.map_values(|f: ProjectedField| f@) =~= acc);
        }
        if selected_exec("image_type", keep, exclude) {
            out.push(
                ProjectedField {
                    name: String::from_str("image_type"),
                    value: FieldValue::Text(item.image_type.clone()),
                },
            );
        }
        proof {
            acc = acc + sel_text("image_type"@, Some(item@.image_type), inc, exc);
            assert(out@.map_values(|f: ProjectedField| f@) =~= acc);
        }
        if selected_exec("java_version", keep, exclude) {
            out.push(
                ProjectedField {
                    name: String::from_str("java_version"),
                    value: FieldValue::Text(item.java_version.clone()),
                },
            );
        }
        proof {
            acc = acc + sel_text("java_version"@, Some(item@.java_version), inc, exc);
            assert(out@.map_values(|f: ProjectedField| f@) =~= acc);
            assert(projected_front(item@, inc, exc) =~= acc);
        }
        out
    }

    /// The second half of the projection.
    #[verifier::rlimit(100)]
    fn map_back(item: &JvmData, keep: &Vec<String>, exclude: &Vec<String>) -> (r: Vec<
        ProjectedField,
    >)
        ensures
            r@.map_values(|f: ProjectedField| f@) == projected_back(
                item@,
                keep.deep_view(),
                exclude.deep_view(),
            ),
    {
        let ghost inc = keep.deep_view();
        let ghost exc = exclude.deep_view();
        let mut out: Vec<ProjectedField> = Vec::new();
        let ghost mut acc: Seq<ProjectedFieldView> = Seq::empty();
        proof {
            assert(out@.map_values(|f: ProjectedField| f@) =~= acc);
        }
        if selected_exec("jvm_impl", keep, exclude) {
            out.push(
                ProjectedField {
                    name: String::from_str("jvm_impl"),
                    value: FieldValue::Text(item.jvm_impl.clone()),
                },
            );
        }
        proof {
            acc = acc + sel_text("jvm_impl"@, Some(item@.jvm_impl), inc, exc);
            assert(out@.map_values(|f: ProjectedField| f@) =~= acc);
        }
        if selected_exec("os", keep, exclude) {
            out.push(
                ProjectedField {
                    name: String::from_str("os"),
                    value: FieldValue::Text(item.os.clone()),
                },
            );
        }
        proof {
            acc = acc + sel_text("os"@, Some(item@.os), inc, exc);
            assert(out@.map_values(|f: ProjectedField| f@) =~= acc);
        }
        if selected_exec("release_type", keep, exclude) {
            out.push(
                ProjectedField {
                    name: String::from_str("release_type"),
                    value: FieldValue::Text(item.release_type.clone()),
                },
            );
        }
        proof {
            acc = acc + sel_text("release_type"@, Some(item@.release_type), inc, exc);
            assert(out@.map_values(|f: ProjectedField| f@) =~= acc);
        }
        if let Some(sz) = item.size {
            if selected_exec("size", keep, exclude) {
                out.push(
                    ProjectedField {
                        name: String::from_str("size"),
                        value: FieldValue::Number(sz),
                    },
                );
            }
        }
        proof {
            acc = acc + sel_num("size"@, item@.size, inc, exc);
            assert(out@.map_values(|f: ProjectedField| f@) =~= acc);
        }
        if selected_exec("url", keep, exclude) {
            out.push(
                ProjectedField {
                    name: String::from_str("url"),
                    value: FieldValue::Text(item.url.clone()),
                },
            );
        }
        proof {
            acc = acc + sel_text("url"@, Some(item@.url), inc, exc);
            assert(out@.map_values(|f: ProjectedField| f@) =~= acc);
        }
        if selected_exec("vendor", keep, exclude) {
            out.push(
                ProjectedField {
                    name: String::from_str("vendor"),
                    value: FieldValue::Text(item.vendor.clone()),
                },
            );
        }
        proof {
            acc = acc + sel_text("vendor"@, Some(item@.vendor), inc, exc);
            assert(out@.map_values(|f: ProjectedField| f@) =~= acc);
        }
        if selected_exec("version", keep, exclude) {
            out.push(
                ProjectedField {
                    name: String::from_str("version"),
                    value: FieldValue::Text(item.version.clone()),
                },
            );
        }
        proof {
            acc = acc + sel_text("version"@, Some(item@.version), inc, exc);
            assert(out@.map_values(|f: ProjectedField| f@) =~= acc);
            assert(projected_back(item@, inc, exc) =~= acc);
        }
        out
    }

    /// The exported form of this record: its present fields in canonical
    /// order, restricted by the keep and exclude lists.
    pub fn map(item: &JvmData, keep: &Vec<String>, exclude: &Vec<String>) -> (r: Vec<
        ProjectedField,
    >)
        ensures
            r@.map_values(|f: ProjectedField| f@) == projected(
                item@,
                keep.deep_view(),
                exclude.deep_view(),
            ),
    {
        let mut out = Self::map_front(item, keep, exclude);
        let ghost front = out@;
        let mut rest = Self::map_back(item, keep, exclude);
        let ghost back = rest@;
        out.append(&mut rest);
        proof {
            assert(out@.map_values(|f: ProjectedField| f@) =~= front.map_values(
                |f: ProjectedField| f@,
            ) + back.map_values(|f: ProjectedField| f@));
        }
        out
    }
}

} // verus!

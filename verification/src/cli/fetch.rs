//! The fetch command: source selection and the merge of per-source
//! outcomes into one deduplicated record set.
//!
//! The concurrency around it — one worker per selected source, each
//! fetching independently — lives outside the library; every worker's
//! outcome (its record set, or its failure) is handed back here, and the
//! merge below is what makes the run's result well defined: the records of
//! the succeeding sources, as a set, with the failing sources named.

use vstd::prelude::*;

use crate::jvm::vendor::{registry, vendor_names};
use crate::jvm::{FetchError, JvmData, JvmDataView};
use crate::text::contains_str;

verus! {

/// Fetch release metadata from the selected vendors; an empty selection
/// means every registered vendor.
pub struct Fetch {
    pub vendors: Vec<String>,
}

/// The registered sources filtered by a requested name list: an empty
/// request selects every source, and unknown names select nothing.
pub open spec fn selected(reg: Seq<Seq<char>>, req: Seq<Seq<char>>) -> Seq<Seq<char>>
    decreases reg.len(),
{
    if reg.len() == 0 {
        Seq::empty()
    } else {
        selected(reg.drop_last(), req) + (if req.len() == 0 || req.contains(reg.last()) {
            seq![reg.last()]
        } else {
            Seq::<Seq<char>>::empty()
        })
    }
}

/// One source's outcome for this run: the records it produced, or the
/// failure that ended it.  Either way the source's name is kept.
pub struct SourceOutcome {
    pub name: String,
    pub result: Result<Vec<JvmData>, FetchError>,
}

/// The set of record views a single outcome contributes.
pub open spec fn outcome_records(o: SourceOutcome) -> Set<JvmDataView> {
    match o.result {
        Ok(v) => v@.map_values(|d: JvmData| d@).to_set(),
        Err(_) => Set::empty(),
    }
}

/// The union of every outcome's records.
pub open spec fn merged_set(os: Seq<SourceOutcome>) -> Set<JvmDataView>
    decreases os.len(),
{
    if os.len() == 0 {
        Set::empty()
    } else {
        merged_set(os.drop_last()).union(outcome_records(os.last()))
    }
}

/// The names of the outcomes that failed, in order.
pub open spec fn failed_names(os: Seq<SourceOutcome>) -> Seq<Seq<char>>
    decreases os.len(),
{
    if os.len() == 0 {
        Seq::empty()
    } else {
        failed_names(os.drop_last()) + (if os.last().result is Err {
            seq![os.last().name@]
        } else {
            Seq::<Seq<char>>::empty()
        })
    }
}

/// The merged result of a whole run: one deduplicated record set and the
/// names of the sources that failed.
pub struct MergeResult {
    pub records: Vec<JvmData>,
    pub failed: Vec<String>,
}

/// Deduplication law: a record that reaches the merge several times — twice
/// from one source, or once from each of several sources — stands in the
/// merged records exactly once.  The parameters are the merged record views
/// and the outcomes they were merged from, as `merge_outcomes` relates them.
pub proof fn lemma_merge_deduplicates(
    records: Seq<JvmDataView>,
    outcomes: Seq<SourceOutcome>,
    v: JvmDataView,
)
    requires
        records.to_set() == merged_set(outcomes),
        forall|i: int, j: int| 0 <= i < j < records.len() ==> records[i] != records[j],
        merged_set(outcomes).contains(v),
    ensures
        exists|k: int| 0 <= k < records.len() && records[k] == v,
        forall|k: int, l: int|
            0 <= k < records.len() && 0 <= l < records.len() && records[k] == v && records[l] == v
                ==> k == l,
{
    assert(records.to_set().contains(v));
    assert(records.contains(v));
}

/// Partial-failure law: the merged set holds exactly the records of the
/// outcomes that succeeded.  A failing source contributes nothing, and
/// blocks nothing that a succeeding source contributed.
pub proof fn lemma_merged_membership(outcomes: Seq<SourceOutcome>, v: JvmDataView)
    ensures
        merged_set(outcomes).contains(v) <==> exists|i: int|
            0 <= i < outcomes.len() && (#[trigger] outcomes[i]).result is Ok && outcome_records(
                outcomes[i],
            ).contains(v),
    decreases outcomes.len(),
{
    if outcomes.len() > 0 {
        let prefix = outcomes.drop_last();
        lemma_merged_membership(prefix, v);
        assert(forall|i: int| 0 <= i < prefix.len() ==> prefix[i] == outcomes[i]);
        if merged_set(outcomes).contains(v) {
            if outcome_records(outcomes.last()).contains(v) {
                assert(outcomes[outcomes.len() - 1].result is Ok);
            }
        }
        if exists|i: int|
            0 <= i < outcomes.len() && (#[trigger] outcomes[i]).result is Ok && outcome_records(
                outcomes[i],
            ).contains(v) {
            let i = choose|i: int|
                0 <= i < outcomes.len() && (#[trigger] outcomes[i]).result is Ok
                    && outcome_records(outcomes[i]).contains(v);
            if i < outcomes.len() - 1 {
                assert(outcome_records(prefix[i]).contains(v));
                assert(merged_set(prefix).contains(v));
            }
        }
    }
}

/// Appending one element to a sequence adds exactly that element to the
/// set of its values.
proof fn lemma_push_to_set<A>(s: Seq<A>, x: A)
    ensures
        s.push(x).to_set() == s.to_set().insert(x),
{
    assert forall|a: A| s.push(x).to_set().contains(a) implies s.to_set().insert(x).contains(
        a,
    ) by {
        let i = choose|i: int| 0 <= i < s.push(x).len() && s.push(x)[i] == a;
        if i < s.len() {
            assert(s[i] == a);
            assert(s.contains(a));
        }
    }
    assert forall|a: A| s.to_set().insert(x).contains(a) implies s.push(x).to_set().contains(
        a,
    ) by {
        if a == x {
            assert(s.push(x)[s.len() as int] == a);
        } else {
            let i = choose|i: int| 0 <= i < s.len() && s[i] == a;
            assert(s.push(x)[i] == a);
        }
        assert(s.push(x).contains(a));
    }
    assert(s.push(x).to_set() =~= s.to_set().insert(x));
}

/// Membership of a record among those already merged.
#[verifier::loop_isolation(false)]
fn contains_record(rs: &Vec<JvmData>, d: &JvmData) -> (r: bool)
    ensures
        r == exists|k: int| 0 <= k < rs@.len() && (#[trigger] rs@[k])@ == d@,
{
    let n = rs.len();
    let mut i: usize = 0;
    while i < n
        invariant
            i <= n,
            forall|k: int| 0 <= k < i ==> (#[trigger] rs@[k])@ != d@,
        decreases n - i,
    {
        if rs[i].same_record(d) {
            return true;
        }
        i = i + 1;
    }
    false
}

impl Fetch {
    /// The names of the sources this run crawls: the registry filtered by
    /// the requested list, with an empty request selecting all.
    #[verifier::loop_isolation(false)]
    pub fn get_vendors(&self) -> (r: Vec<String>)
        ensures
            r.deep_view() == selected(registry(), self.vendors.deep_view()),
    {
        let names = vendor_names();
        let n = names.len();
        let all = self.vendors.is_empty();
        let mut out: Vec<String> = Vec::new();
        let mut i: usize = 0;
        proof {
            assert(names.deep_view().take(0) =~= Seq::<Seq<char>>::empty());
            assert(out.deep_view() =~= selected(names.deep_view().take(0), self.vendors.deep_view()));
        }
        while i < n
            invariant
                i <= n,
                out.deep_view() == selected(
                    names.deep_view().take(i as int),
                    self.vendors.deep_view(),
                ),
            decreases n - i,
        {
            let ghost prefix = names.deep_view().take(i as int);
            proof {
                assert(names.deep_view().take(i as int + 1).drop_last() =~= prefix);
                assert(names.deep_view().take(i as int + 1).last() == names.deep_view()[i as int]);
            }
            if all || contains_str(&self.vendors, names[i].as_str()) {
                let ghost old_out = out.deep_view();
                out.push(names[i].clone());
                proof {
                    assert(out.deep_view() =~= old_out.push(names.deep_view()[i as int]));
                    assert(out.deep_view() =~= selected(
                        names.deep_view().take(i as int + 1),
                        self.vendors.deep_view(),
                    ));
                }
            } else {
                proof {
                    assert(selected(
                        names.deep_view().take(i as int + 1),
                        self.vendors.deep_view(),
                    ) =~= out.deep_view());
                }
            }
            i = i + 1;
        }
        proof {
            assert(names.deep_view().take(n as int) =~= names.deep_view());
        }
        out
    }

    /// Merges every source's outcome into one deduplicated record set:
    /// exactly the records of the succeeding sources, each kept once, with
    /// the failing sources named.  A run with failures still merges — a
    /// failed source contributes nothing and blocks nothing.
    #[verifier::loop_isolation(false)]
    pub fn merge_outcomes(outcomes: Vec<SourceOutcome>) -> (r: MergeResult)
        ensures
            r.records@.map_values(|d: JvmData| d@).to_set() == merged_set(outcomes@),
            forall|i: int, j: int| 0 <= i < j < r.records@.len() ==> r.records@[i]@
                != r.records@[j]@,
            r.failed.deep_view() == failed_names(outcomes@),
    {
        let mut records: Vec<JvmData> = Vec::new();
        let mut failed: Vec<String> = Vec::new();
        let n = outcomes.len();
        proof {
            assert(outcomes@.take(0) =~= Seq::<SourceOutcome>::empty());
            assert(records@.map_values(|d: JvmData| d@).to_set() =~= merged_set(outcomes@.take(0)));
            assert(failed.deep_view() =~= failed_names(outcomes@.take(0)));
        }
        let mut idx: usize = 0;
        while idx < n
            invariant
                idx <= n,
                records@.map_values(|d: JvmData| d@).to_set() == merged_set(
                    outcomes@.take(idx as int),
                ),
                forall|a: int, b: int| 0 <= a < b < records@.len() ==> records@[a]@
                    != records@[b]@,
                failed.deep_view() == failed_names(outcomes@.take(idx as int)),
            decreases n - idx,
        {
            let ghost prefix = outcomes@.take(idx as int);
            proof {
                assert(outcomes@.take(idx as int + 1).drop_last() =~= prefix);
                assert(outcomes@.take(idx as int + 1).last() == outcomes@[idx as int]);
            }
            let outcome = &outcomes[idx];
            match &outcome.result {
                Ok(v) => {
                    let m = v.len();
                    let mut j: usize = 0;
                    proof {
                        assert(v@.take(0) =~= Seq::<JvmData>::empty());
                        assert(v@.take(0).map_values(|d: JvmData| d@).to_set() =~= Set::<
                            JvmDataView,
                        >::empty());
                        assert(merged_set(prefix).union(
                            v@.take(0).map_values(|d: JvmData| d@).to_set(),
                        ) =~= merged_set(prefix));
                    }
                    while j < m
                        invariant
                            j <= m,
                            m == v@.len(),
                            outcomes@[idx as int].result == Ok::<Vec<JvmData>, FetchError>(*v),
                            records@.map_values(|d: JvmData| d@).to_set() == merged_set(
                                prefix,
                            ).union(v@.take(j as int).map_values(|d: JvmData| d@).to_set()),
                            forall|a: int, b: int| 0 <= a < b < records@.len() ==> records@[a]@
                                != records@[b]@,
                            failed.deep_view() == failed_names(prefix),
                        decreases m - j,
                    {
                        let ghost old_set = records@.map_values(|d: JvmData| d@).to_set();
                        let ghost dv = v@[j as int]@;
                        proof {
                            assert(v@.take(j as int + 1) =~= v@.take(j as int).push(v@[j as int]));
                            assert(v@.take(j as int + 1).map_values(|d: JvmData| d@) =~= v@.take(
                                j as int,
                            ).map_values(|d: JvmData| d@).push(dv));
                            lemma_push_to_set(v@.take(j as int).map_values(|d: JvmData| d@), dv);
                            assert(v@.take(j as int + 1).map_values(|d: JvmData| d@).to_set()
                                =~= v@.take(j as int).map_values(|d: JvmData| d@).to_set().insert(
                                dv,
                            ));
                        }
                        let dup = contains_record(&records, &v[j]);
                        proof {
                            let m = records@.map_values(|x: JvmData| x@);
                            if dup {
                                let k = choose|k: int| 0 <= k < records@.len() && (
                                #[trigger] records@[k])@ == dv;
                                assert(m[k] == dv);
                                assert(m.contains(dv));
                            } else {
                                assert forall|k: int| 0 <= k < m.len() implies #[trigger] m[k]
                                    != dv by {
                                    assert(m[k] == records@[k]@);
                                }
                                assert(!m.contains(dv));
                            }
                        }
                        if !dup {
                            let ghost old_map = records@.map_values(|d: JvmData| d@);
                            records.push(v[j].clone_record());
                            proof {
                                assert(records@.map_values(|d: JvmData| d@) =~= old_map.push(dv));
                                lemma_push_to_set(old_map, dv);
                                assert(records@.map_values(|d: JvmData| d@).to_set() =~= old_set
                                    .insert(dv));
                                assert(old_set.insert(dv) =~= merged_set(prefix).union(
                                    v@.take(j as int + 1).map_values(|d: JvmData| d@).to_set(),
                                ));
                            }
                        } else {
                            proof {
                                assert(old_set.contains(dv));
                                assert(old_set =~= merged_set(prefix).union(
                                    v@.take(j as int + 1).map_values(|d: JvmData| d@).to_set(),
                                ));
                            }
                        }
                        j = j + 1;
                    }
                    proof {
                        assert(v@.take(m as int) =~= v@);
                        assert(outcome_records(outcomes@[idx as int]) == v@.map_values(
                            |d: JvmData| d@,
                        ).to_set());
                        assert(failed_names(outcomes@.take(idx as int + 1)) =~= failed_names(
                            prefix,
                        ));
                    }
                },
                Err(_) => {
                    let ghost old_failed = failed.deep_view();
                    failed.push(outcome.name.clone());
                    proof {
                        assert(failed.deep_view() =~= old_failed.push(
                            outcomes@[idx as int].name@,
                        ));
                        assert(failed.deep_view() =~= failed_names(outcomes@.take(idx as int + 1)));
                        assert(outcome_records(outcomes@[idx as int]) =~= Set::<
                            JvmDataView,
                        >::empty());
                        assert(merged_set(outcomes@.take(idx as int + 1)) =~= merged_set(prefix));
                    }
                },
            }
            idx = idx + 1;
        }
        proof {
            assert(outcomes@.take(n as int) =~= outcomes@);
        }
        MergeResult { records, failed }
    }
}

} // verus!

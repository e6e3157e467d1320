//! Export by vendor, operating system and architecture: the command
//! enumerates one partition per (vendor, os, architecture) combination —
//! including empty ones, so the output surface stays predictable — and
//! projects each partition's records through the filters and the field
//! lists.  Reading the store and writing the JSON files stays outside the
//! library.

use vstd::prelude::*;

use crate::jvm::{
    projected, record_matches, JvmData, ProjectedField, ProjectedFieldView,
};

verus! {

/// View of one export partition.
#[verifier::ext_equal]
pub struct PartitionView {
    pub vendor: Seq<char>,
    pub os: Seq<char>,
    pub arch: Seq<char>,
}

/// One export partition: one output unit per combination.
pub struct Partition {
    pub vendor: String,
    pub os: String,
    pub arch: String,
}

impl View for Partition {
    type V = PartitionView;

    open spec fn view(&self) -> PartitionView {
        PartitionView { vendor: self.vendor@, os: self.os@, arch: self.arch@ }
    }
}

/// Export by {vendor}/{os}/{architecture}; empty selections fall back to
/// every distinct value the store knows.
pub struct Vendor {
    pub vendors: Option<Vec<String>>,
    pub os: Option<Vec<String>>,
    pub arch: Option<Vec<String>>,
    pub keep: Option<Vec<String>>,
    pub exclude: Option<Vec<String>>,
    pub filters: Option<Vec<String>>,
    pub pretty: bool,
}

/// The list a selection resolves to: the requested values when given, the
/// store's distinct values otherwise.
pub open spec fn effective(opt: Option<Vec<String>>, default: Seq<Seq<char>>) -> Seq<Seq<char>> {
    match opt {
        Some(v) => v.deep_view(),
        None => default,
    }
}

/// The partitions for one vendor and one operating system: one per
/// architecture, in order.
pub open spec fn cross_arch(v: Seq<char>, o: Seq<char>, cs: Seq<Seq<char>>) -> Seq<PartitionView>
    decreases cs.len(),
{
    if cs.len() == 0 {
        Seq::empty()
    } else {
        cross_arch(v, o, cs.drop_last()).push(
            PartitionView { vendor: v, os: o, arch: cs.last() },
        )
    }
}

/// The partitions for one vendor: every operating system crossed with
/// every architecture.
pub open spec fn cross_os(v: Seq<char>, bs: Seq<Seq<char>>, cs: Seq<Seq<char>>) -> Seq<
    PartitionView,
>
    decreases bs.len(),
{
    if bs.len() == 0 {
        Seq::empty()
    } else {
        cross_os(v, bs.drop_last(), cs) + cross_arch(v, bs.last(), cs)
    }
}

/// Every partition: every vendor crossed with every operating system and
/// every architecture, in selection order.
pub open spec fn cross(vs: Seq<Seq<char>>, bs: Seq<Seq<char>>, cs: Seq<Seq<char>>) -> Seq<
    PartitionView,
>
    decreases vs.len(),
{
    if vs.len() == 0 {
        Seq::empty()
    } else {
        cross(vs.drop_last(), bs, cs) + cross_os(vs.last(), bs, cs)
    }
}

/// The rows one partition exports: its matching records, projected.
pub open spec fn export_rows(
    ds: Seq<JvmData>,
    fm: Seq<(Seq<char>, Seq<Seq<char>>)>,
    inc: Seq<Seq<char>>,
    exc: Seq<Seq<char>>,
) -> Seq<Seq<ProjectedFieldView>>
    decreases ds.len(),
{
    if ds.len() == 0 {
        Seq::empty()
    } else {
        export_rows(ds.drop_last(), fm, inc, exc) + (if record_matches(ds.last()@, fm) {
            seq![projected(ds.last()@, inc, exc)]
        } else {
            Seq::<Seq<ProjectedFieldView>>::empty()
        })
    }
}

/// The rows of a list of projected records, as views.
pub open spec fn rows_view(rows: Seq<Vec<ProjectedField>>) -> Seq<Seq<ProjectedFieldView>> {
    rows.map_values(|row: Vec<ProjectedField>| row@.map_values(|f: ProjectedField| f@))
}

impl Vendor {
    /// The partitions this export enumerates: every selected vendor
    /// crossed with every selected operating system and architecture,
    /// with empty selections falling back to the store's distinct values.
    /// Empty partitions are enumerated like any other.
    #[verifier::loop_isolation(false)]
    pub fn partitions(
        &self,
        vendors_default: Vec<String>,
        oses_default: Vec<String>,
        archs_default: Vec<String>,
    ) -> (r: Vec<Partition>)
        ensures
            r@.map_values(|p: Partition| p@) == cross(
                effective(self.vendors, vendors_default.deep_view()),
                effective(self.os, oses_default.deep_view()),
                effective(self.arch, archs_default.deep_view()),
            ),
    {
        let vendors: &Vec<String> = match &self.vendors {
            Some(v) => v,
            None => &vendors_default,
        };
        let oses: &Vec<String> = match &self.os {
            Some(v) => v,
            None => &oses_default,
        };
        let archs: &Vec<String> = match &self.arch {
            Some(v) => v,
            None => &archs_default,
        };
        let ghost vs = vendors.deep_view();
        let ghost bs = oses.deep_view();
        let ghost cs = archs.deep_view();
        let mut out: Vec<Partition> = Vec::new();
        let nv = vendors.len();
        let no = oses.len();
        let na = archs.len();
        let mut i: usize = 0;
        proof {
            assert(vs.take(0) =~= Seq::<Seq<char>>::empty());
            assert(out@.map_values(|p: Partition| p@) =~= cross(vs.take(0), bs, cs));
        }
        while i < nv
            invariant
                i <= nv,
                out@.map_values(|p: Partition| p@) == cross(vs.take(i as int), bs, cs),
            decreases nv - i,
        {
            proof {
                assert(vs.take(i as int + 1).drop_last() =~= vs.take(i as int));
                assert(vs.take(i as int + 1).last() == vs[i as int]);
            }
            let mut j: usize = 0;
            proof {
                assert(bs.take(0) =~= Seq::<Seq<char>>::empty());
                assert(cross_os(vs[i as int], bs.take(0), cs) =~= Seq::<PartitionView>::empty());
                assert(out@.map_values(|p: Partition| p@) =~= cross(vs.take(i as int), bs, cs)
                    + cross_os(vs[i as int], bs.take(0), cs));
            }
            while j < no
                invariant
                    j <= no,
                    i < nv,
                    out@.map_values(|p: Partition| p@) == cross(vs.take(i as int), bs, cs)
                        + cross_os(vs[i as int], bs.take(j as int), cs),
                decreases no - j,
            {
                proof {
                    assert(bs.take(j as int + 1).drop_last() =~= bs.take(j as int));
                    assert(bs.take(j as int + 1).last() == bs[j as int]);
                }
                let mut k: usize = 0;
                proof {
                    assert(cs.take(0) =~= Seq::<Seq<char>>::empty());
                    assert(cross_arch(vs[i as int], bs[j as int], cs.take(0)) =~= Seq::<
                        PartitionView,
                    >::empty());
                    assert(out@.map_values(|p: Partition| p@) =~= cross(vs.take(i as int), bs, cs)
                        + cross_os(vs[i as int], bs.take(j as int), cs) + cross_arch(
                        vs[i as int],
                        bs[j as int],
                        cs.take(0),
                    ));
                }
                while k < na
                    invariant
                        k <= na,
                        i < nv,
                        j < no,
                        out@.map_values(|p: Partition| p@) == cross(vs.take(i as int), bs, cs)
                            + cross_os(vs[i as int], bs.take(j as int), cs) + cross_arch(
                            vs[i as int],
                            bs[j as int],
                            cs.take(k as int),
                        ),
                    decreases na - k,
                {
                    proof {
                        assert(cs.take(k as int + 1).drop_last() =~= cs.take(k as int));
                        assert(cs.take(k as int + 1).last() == cs[k as int]);
                    }
                    let ghost old_map = out@.map_values(|p: Partition| p@);
                    let p = Partition {
                        vendor: vendors[i].clone(),
                        os: oses[j].clone(),
                        arch: archs[k].clone(),
                    };
                    out.push(p);
                    proof {
                        assert(out@.map_values(|p: Partition| p@) =~= old_map.push(
                            PartitionView {
                                vendor: vs[i as int],
                                os: bs[j as int],
                                arch: cs[k as int],
                            },
                        ));
                        assert(out@.map_values(|p: Partition| p@) =~= cross(
                            vs.take(i as int),
                            bs,
                            cs,
                        ) + cross_os(vs[i as int], bs.take(j as int), cs) + cross_arch(
                            vs[i as int],
                            bs[j as int],
                            cs.take(k as int + 1),
                        ));
                    }
                    k = k + 1;
                }
                proof {
                    assert(cs.take(na as int) =~= cs);
                }
                j = j + 1;
            }
            proof {
                assert(bs.take(no as int) =~= bs);
            }
            i = i + 1;
        }
        proof {
            assert(vs.take(nv as int) =~= vs);
        }
        out
    }

    /// The output rows for one partition's records: the records that
    /// satisfy every filter, projected through the field lists, in store
    /// order.
    #[verifier::loop_isolation(false)]
    pub fn project_partition(
        data: &Vec<JvmData>,
        filters: &Vec<(String, Vec<String>)>,
        keep: &Vec<String>,
        exclude: &Vec<String>,
    ) -> (r: Vec<Vec<ProjectedField>>)
        ensures
            rows_view(r@) == export_rows(
                data@,
                crate::jvm::filters_view(*filters),
                keep.deep_view(),
                exclude.deep_view(),
            ),
    {
        let ghost fm = crate::jvm::filters_view(*filters);
        let ghost inc = keep.deep_view();
        let ghost exc = exclude.deep_view();
        let n = data.len();
        let mut out: Vec<Vec<ProjectedField>> = Vec::new();
        let mut i: usize = 0;
        proof {
            assert(data@.take(0) =~= Seq::<JvmData>::empty());
            assert(rows_view(out@) =~= export_rows(data@.take(0), fm, inc, exc));
        }
        while i < n
            invariant
                i <= n,
                rows_view(out@) == export_rows(data@.take(i as int), fm, inc, exc),
            decreases n - i,
        {
            proof {
                assert(data@.take(i as int + 1).drop_last() =~= data@.take(i as int));
                assert(data@.take(i as int + 1).last() == data@[i as int]);
            }
            if JvmData::filter(&data[i], filters) {
                let row = JvmData::map(&data[i], keep, exclude);
                let ghost old_rows = rows_view(out@);
                let ghost row_view = row@.map_values(|f: ProjectedField| f@);
                out.push(row);
                proof {
                    assert(rows_view(out@) =~= old_rows.push(row_view));
                    assert(rows_view(out@) =~= export_rows(data@.take(i as int + 1), fm, inc, exc));
                }
            } else {
                proof {
                    assert(export_rows(data@.take(i as int + 1), fm, inc, exc) =~= rows_view(out@));
                }
            }
            i = i + 1;
        }
        proof {
            assert(data@.take(n as int) =~= data@);
        }
        out
    }
}

} // verus!

//! Export commands: filter and project stored records for output.

use vstd::prelude::*;

use crate::text::split_on;
use crate::text::split_str;

pub mod vendor;

verus! {

/// The export subcommands.
pub enum Commands {
    Vendor(vendor::Vendor),
}

/// Export stored JVM data.
pub struct Export {
    pub command: Commands,
}

/// What one raw filter argument contributes to the filter map: a
/// `key=value[,value...]` group becomes one entry, anything else is
/// ignored.
pub open spec fn entry_of(f: Seq<char>) -> Seq<(Seq<char>, Seq<Seq<char>>)> {
    let ps = split_on(f, '=');
    if ps.len() == 2 {
        seq![(ps[0], split_on(ps[1], ','))]
    } else {
        Seq::empty()
    }
}

/// The filter map a list of raw filter arguments parses to.
pub open spec fn filter_entries(fs: Seq<Seq<char>>) -> Seq<(Seq<char>, Seq<Seq<char>>)>
    decreases fs.len(),
{
    if fs.len() == 0 {
        Seq::empty()
    } else {
        filter_entries(fs.drop_last()) + entry_of(fs.last())
    }
}

/// Parses raw `key=value[,value...]` filter arguments into the filter map
/// the record filter consumes.
#[verifier::loop_isolation(false)]
pub fn get_filter_map(filters: Vec<String>) -> (r: Vec<(String, Vec<String>)>)
    ensures
        crate::jvm::filters_view(r) == filter_entries(filters.deep_view()),
{
    let n = filters.len();
    let mut out: Vec<(String, Vec<String>)> = Vec::new();
    let mut i: usize = 0;
    proof {
        assert(filters.deep_view().take(0) =~= Seq::<Seq<char>>::empty());
        assert(crate::jvm::filters_view(out) =~= filter_entries(filters.deep_view().take(0)));
    }
    while i < n
        invariant
            i <= n,
            crate::jvm::filters_view(out) == filter_entries(filters.deep_view().take(i as int)),
        decreases n - i,
    {
        let ghost prefix = filters.deep_view().take(i as int);
        proof {
            assert(filters.deep_view().take(i as int + 1).drop_last() =~= prefix);
            assert(filters.deep_view().take(i as int + 1).last() == filters.deep_view()[i as int]);
        }
        let parts = split_str(filters[i].as_str(), '=');
        if parts.len() == 2 {
            let key = parts[0].clone();
            let vals = split_str(parts[1].as_str(), ',');
            let ghost old_view = crate::jvm::filters_view(out);
            proof {
                assert(parts.deep_view()[0] == key@);
                assert(parts.deep_view()[1] == parts@[1]@);
            }
            out.push((key, vals));
            proof {
                assert(crate::jvm::filters_view(out) =~= old_view.push(
                    (key@, vals.deep_view()),
                ));
                assert(crate::jvm::filters_view(out) =~= filter_entries(
                    filters.deep_view().take(i as int + 1),
                ));
            }
        } else {
            proof {
                assert(filter_entries(filters.deep_view().take(i as int + 1))
                    =~= crate::jvm::filters_view(out));
            }
        }
        i = i + 1;
    }
    proof {
        assert(filters.deep_view().take(n as int) =~= filters.deep_view());
    }
    out
}

} // verus!

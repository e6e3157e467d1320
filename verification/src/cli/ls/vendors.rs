//! Lists the distinct vendors the store knows, keeping only the vendors
//! this crawler supports.

use vstd::prelude::*;

use crate::jvm::vendor::{registry, vendor_names};
use crate::text::contains_str;

verus! {

/// List distinct vendors.
pub struct Vendor {}

/// The values among `distinct` that name a registered vendor, in order.
pub open spec fn supported_only(distinct: Seq<Seq<char>>) -> Seq<Seq<char>>
    decreases distinct.len(),
{
    if distinct.len() == 0 {
        Seq::empty()
    } else {
        supported_only(distinct.drop_last()) + (if registry().contains(distinct.last()) {
            seq![distinct.last()]
        } else {
            Seq::<Seq<char>>::empty()
        })
    }
}

impl Vendor {
    /// The names of the vendors this crawler supports.
    pub fn get_vendors(&self) -> (r: Vec<String>)
        ensures
            r.deep_view() == registry(),
    {
        vendor_names()
    }

    /// The distinct vendor values that name a supported vendor, one line
    /// each, in store order.
    #[verifier::loop_isolation(false)]
    pub fn run(self, vendors: Vec<String>) -> (r: Vec<String>)
        ensures
            r.deep_view() == supported_only(vendors.deep_view()),
    {
        let known = self.get_vendors();
        let n = vendors.len();
        let mut out: Vec<String> = Vec::new();
        let mut i: usize = 0;
        proof {
            assert(vendors.deep_view().take(0) =~= Seq::<Seq<char>>::empty());
            assert(out.deep_view() =~= supported_only(vendors.deep_view().take(0)));
        }
        while i < n
            invariant
                i <= n,
                known.deep_view() == registry(),
                out.deep_view() == supported_only(vendors.deep_view().take(i as int)),
            decreases n - i,
        {
            let ghost prefix = vendors.deep_view().take(i as int);
            proof {
                assert(vendors.deep_view().take(i as int + 1).drop_last() =~= prefix);
                assert(vendors.deep_view().take(i as int + 1).last() == vendors.deep_view()[
                    i as int
                ]);
            }
            if contains_str(&known, vendors[i].as_str()) {
                let ghost old_out = out.deep_view();
                out.push(vendors[i].clone());
                proof {
                    assert(out.deep_view() =~= old_out.push(vendors.deep_view()[i as int]));
                    assert(out.deep_view() =~= supported_only(
                        vendors.deep_view().take(i as int + 1),
                    ));
                }
            } else {
                proof {
                    assert(supported_only(vendors.deep_view().take(i as int + 1)) =~= out
                        .deep_view());
                }
            }
            i = i + 1;
        }
        proof {
            assert(vendors.deep_view().take(n as int) =~= vendors.deep_view());
        }
        out
    }
}

} // verus!

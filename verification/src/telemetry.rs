//! Log-level configuration: the filter directive string the tracing
//! subscriber is initialized with.

use vstd::prelude::*;

use crate::strutil::push_char;

verus! {

/// Crate names use `_` where package names use `-`.
pub open spec fn underscored(s: Seq<char>) -> Seq<char> {
    s.map_values(
        |c: char|
            if c == '-' {
                '_'
            } else {
                c
            },
    )
}

/// The filter directives: the given package and this layer's crates at
/// trace, the HTTP machinery quieted, everything else at debug.
pub open spec fn log_levels_spec(pkg_name: Seq<char>) -> Seq<char> {
    underscored(pkg_name)
        + "=trace,api_interface=trace,reqwest=info,api_database=trace,tower=warn,h2=warn,hyper=warn,tungstenite=warn,debug"@
}

/// Builds the filter directive string for the tracing subscriber.
pub fn log_levels(pkg_name: &str) -> (r: String)
    ensures
        r@ == log_levels_spec(pkg_name@),
{
    let mut out = String::new();
    let n = pkg_name.unicode_len();
    for i in 0..n
        invariant
            n == pkg_name@.len(),
            out@ =~= underscored(pkg_name@.subrange(0, i as int)),
    {
        let c = pkg_name.get_char(i);
        if c == '-' {
            push_char(&mut out, '_');
        } else {
            push_char(&mut out, c);
        }
        proof {
            assert(out@ =~= underscored(pkg_name@.subrange(0, i as int + 1)));
        }
    }
    proof {
        assert(pkg_name@.subrange(0, n as int) =~= pkg_name@);
        assert(out@ =~= underscored(pkg_name@));
    }
    out.append(
        "=trace,api_interface=trace,reqwest=info,api_database=trace,tower=warn,h2=warn,hyper=warn,tungstenite=warn,debug",
    );
    out
}

} // verus!

//! Pattern-matching queries: the argument encoder for the
//! `pattern_matching_query` command.

use vstd::prelude::*;

use crate::bus::PATTERN_MATCHING_QUERY_CMD;
use crate::helpers::extend_strings;
use crate::properties::wire_view;
use crate::proxy::{fresh_base, BaseQueryProxy};
use crate::text::{dec_str, u64_to_string};
use crate::QueryParams;

verus! {

/// The wire arguments of a pattern-matching query: the serialized
/// properties, the context key, then the token count and the tokens.  The
/// remote peer parses positionally, so the order and count of fields is
/// exact.
pub open spec fn pattern_matching_args(params: QueryParams) -> Seq<Seq<char>> {
    wire_view(params.properties@) + seq![
        params.context_key@,
        dec_str(params.tokens.deep_view().len()),
    ] + params.tokens.deep_view()
}

/// A proxy for one pattern-matching query.
pub struct PatternMatchingQueryProxy {
    pub base: BaseQueryProxy,
}

impl PatternMatchingQueryProxy {
    /// A proxy whose arguments encode `params` for the pattern-matching
    /// command.  An error reports a missing or non-boolean count flag.
    pub fn new(params: &QueryParams) -> (r: Result<PatternMatchingQueryProxy, String>)
        requires
            3 * params.properties@.len() <= u64::MAX,
            params.tokens@.len() <= u64::MAX,
        ensures
            r is Ok <==> crate::assoc::lookup(params.properties@, crate::properties::COUNT_FLAG@)
                matches Some(crate::properties::PropView::Bool(_)),
            r matches Ok(p) ==> {
                &&& fresh_base(p.base, PATTERN_MATCHING_QUERY_CMD@, *params)
                &&& p.base.args.deep_view() == pattern_matching_args(*params)
            },
    {
        let mut base = match BaseQueryProxy::new(
            String::from_str(PATTERN_MATCHING_QUERY_CMD),
            params,
        ) {
            Ok(b) => b,
            Err(e) => {
                return Err(e);
            },
        };
        let mut args = params.properties.to_vec();
        let ghost a0 = args.deep_view();
        args.push(base.context.clone());
        args.push(u64_to_string(base.query_tokens.len() as u64));
        proof {
            assert(args.deep_view() =~~= a0 + seq![
                params.context_key@,
                dec_str(params.tokens.deep_view().len()),
            ]);
        }
        extend_strings(&mut args, &base.query_tokens);
        proof {
            assert(args.deep_view() =~~= pattern_matching_args(*params));
        }
        base.args = args;
        Ok(PatternMatchingQueryProxy { base })
    }
}

} // verus!

//! The request router of the HTTP shell: the slug that scopes the registry
//! scan, and the per-flow predicate that matches method and URL.

use vstd::prelude::*;

use crate::flow::{extract_flow_setting_field, setting_field_string, ValidationFlow};
use crate::http::{http_method_text, HttpOption};
use crate::matcher::IdentifiableFlow;
use crate::regexp::{regex_match, regex_matches, regex_valid};
use crate::strutil::{index_of_char, str_eq};

verus! {

/// The characters of `s` after its leading slashes.
pub open spec fn after_slashes(s: Seq<char>) -> Seq<char>
    decreases s.len(),
{
    if s.len() > 0 && s[0] == '/' {
        after_slashes(s.drop_first())
    } else {
        s
    }
}

/// The first path segment of `s`: the text after the leading slashes and
/// before the next slash, when it is nonempty.
pub open spec fn slug_of(s: Seq<char>) -> Option<Seq<char>> {
    let t = after_slashes(s);
    let i = index_of_char(t, '/');
    let seg = if i < 0 {
        t
    } else {
        t.take(i)
    };
    if seg.len() == 0 {
        None
    } else {
        Some(seg)
    }
}

/// The first path segment of a request path, without its leading slashes.
pub fn extract_slug_from_path(path: &str) -> (r: Option<&str>)
    ensures
        match slug_of(path@) {
            Some(seg) => r is Some && r->Some_0@ == seg,
            None => r is None,
        },
{
    let n = path.unicode_len();
    let mut start: usize = 0;
    proof {
        assert(path@.skip(0) =~= path@);
    }
    while start < n && path.get_char(start) == '/'
        invariant
            0 <= start <= n,
            n == path@.len(),
            forall|k: int| 0 <= k < start ==> path@[k] == '/',
            after_slashes(path@) == after_slashes(path@.skip(start as int)),
        decreases n - start,
    {
        proof {
            assert(path@.skip(start as int).drop_first() =~= path@.skip(start + 1));
        }
        start = start + 1;
    }
    let trimmed = path.substring_char(start, n);
    proof {
        assert(trimmed@ =~= path@.skip(start as int));
        if start < n {
            assert(after_slashes(trimmed@) == trimmed@);
        } else {
            assert(trimmed@ =~= Seq::<char>::empty());
            assert(after_slashes(trimmed@) == trimmed@);
        }
        assert(after_slashes(path@) == trimmed@);
    }
    let tn = trimmed.unicode_len();
    let cut = crate::strutil::find_char(trimmed, '/');
    let seg = trimmed.substring_char(0, cut);
    proof {
        if cut < tn {
            assert(seg@ =~= trimmed@.take(index_of_char(trimmed@, '/')));
        } else {
            assert(seg@ =~= trimmed@);
        }
    }
    if seg.unicode_len() == 0 {
        None
    } else {
        Some(seg)
    }
}

/// The per-flow predicate of the HTTP shell: the flow's `HTTP_METHOD`
/// setting must name the request method, and its `HTTP_URL` setting,
/// read as a regular expression, must match the request path.
pub struct RequestRoute {
    pub url: String,
    pub method: HttpOption,
}

impl IdentifiableFlow for RequestRoute {
    open spec fn spec_identify(&self, flow: ValidationFlow) -> bool {
        &&& setting_field_string(flow.settings@, "HTTP_METHOD"@, "method"@) == Some(
            http_method_text(self.method),
        )
        &&& (match setting_field_string(flow.settings@, "HTTP_URL"@, "url"@) {
            Some(p) => regex_valid(p) && regex_matches(p, self.url@),
            None => false,
        })
    }

    fn identify(&self, flow: &ValidationFlow) -> (r: bool)
        ensures
            r == self.spec_identify(*flow),
    {
        let method_str = match extract_flow_setting_field(&flow.settings, "HTTP_METHOD", "method") {
            Some(m) => m,
            None => {
                return false;
            },
        };
        let own = self.method.to_string();
        if !str_eq(method_str.as_str(), own.as_str()) {
            return false;
        }
        let regex_str = match extract_flow_setting_field(&flow.settings, "HTTP_URL", "url") {
            Some(p) => p,
            None => {
                return false;
            },
        };
        match regex_match(regex_str.as_str(), self.url.as_str()) {
            Some(matched) => matched,
            None => false,
        }
    }
}

} // verus!

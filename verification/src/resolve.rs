use vstd::prelude::*;

use crate::boundary::{
    boundary_parts_match, boundary_prefix_len, boundary_text_match, lemma_boundary_extend,
};
use crate::errors::PathError;
use crate::host::host_realpath;
use crate::text::{
    all_valid_parts, concat_parts, clone_range, is_abs_text, join_abs, join_abs_parts,
    lemma_join_abs_is_abs, lemma_parts_of_join_abs, parse_path, parts_of, valid_part,
};

verus! {

// The namespace-aware resolver. Given a boundary prefix that matched
// lexically and the remainder behind it, it confirms the prefix through
// the host, resolves the whole path through the host, and then decides:
// if the resolved result still lies under the prefix's true location, the
// symbolic prefix is rewritten onto the suffix; if it escaped, the
// resolved absolute path is returned untouched. Claiming containment
// when it does not hold would be a security defect, so the decision is
// exact.

/// A boundary prefix in component form: exactly the components of one
/// lexical boundary match, nothing behind it.
pub open spec fn is_boundary_prefix(parts: Seq<Seq<char>>) -> bool {
    boundary_parts_match(true, parts) && parts.len() == boundary_prefix_len(parts)
}

/// The containment test: the canonical result lies at or under the
/// resolved true location of the boundary, compared component by
/// component.
pub open spec fn contained_in(canonical: Seq<char>, resolved: Seq<char>) -> bool {
    parts_of(resolved).is_prefix_of(parts_of(canonical))
}

/// The outcome of a boundary-aware resolution: the real path stayed under
/// the boundary and the boundary prefix is rewritten onto it, or the real
/// path left the boundary's subtree and the literal resolved absolute
/// path carries no boundary semantics.
#[derive(Debug, PartialEq, Eq)]
pub enum ResolutionOutcome {
    /// The path stayed inside the boundary; `path` starts with the
    /// symbolic boundary prefix.
    Contained { path: String },
    /// The path escaped the boundary; `path` is the host's resolved
    /// absolute path, unchanged.
    Escaped { path: String },
}

impl ResolutionOutcome {
    /// The resolved path, with or without boundary semantics.
    pub fn into_path(self) -> (r: String)
        ensures
            r == match self {
                ResolutionOutcome::Contained { path } => path,
                ResolutionOutcome::Escaped { path } => path,
            },
    {
        match self {
            ResolutionOutcome::Contained { path } => path,
            ResolutionOutcome::Escaped { path } => path,
        }
    }
}

/// Decides containment or escape, given the host's answers: `resolved` is
/// the boundary prefix's true absolute location, `canonical` the fully
/// resolved form of the whole path. The outcome is `Contained` exactly
/// when `canonical` lies at or under `resolved`; then the symbolic prefix
/// replaces the true location, component for component. Otherwise
/// `canonical` is passed through verbatim.
pub fn rebase_outcome(prefix_parts: &Vec<String>, resolved: &str, canonical: &str) -> (r:
    ResolutionOutcome)
    ensures
        r is Contained <==> contained_in(canonical@, resolved@),
        r matches ResolutionOutcome::Contained { path } ==> path@ == join_abs(
            prefix_parts.deep_view() + parts_of(canonical@).skip(parts_of(resolved@).len() as int),
        ),
        r matches ResolutionOutcome::Escaped { path } ==> path@ == canonical@,
{
    let ghost rv = parts_of(resolved@);
    let ghost cv = parts_of(canonical@);
    let (_, rparts) = parse_path(resolved);
    let (_, cparts) = parse_path(canonical);
    let rlen = rparts.len();
    let clen = cparts.len();
    if clen < rlen {
        proof {
            assert(!rv.is_prefix_of(cv));
        }
        return ResolutionOutcome::Escaped { path: canonical.to_owned() };
    }
    let mut i: usize = 0;
    while i < rlen
        invariant
            i <= rlen <= clen,
            rlen == rparts@.len(),
            clen == cparts@.len(),
            rparts.deep_view() == rv,
            cparts.deep_view() == cv,
            rv == parts_of(resolved@),
            cv == parts_of(canonical@),
            forall|j: int| 0 <= j < i ==> rv[j] == cv[j],
        decreases rlen - i,
    {
        let same = {
            let x = &rparts[i];
            let y = &cparts[i];
            *x == *y
        };
        if !same {
            proof {
                assert(rv[i as int] != cv[i as int]);
                if rv.is_prefix_of(cv) {
                    assert(rv[i as int] == cv.subrange(0, rv.len() as int)[i as int]);
                    assert(cv.subrange(0, rv.len() as int)[i as int] == cv[i as int]);
                }
            }
            return ResolutionOutcome::Escaped { path: canonical.to_owned() };
        }
        i += 1;
    }
    proof {
        assert(rv =~= cv.subrange(0, rv.len() as int));
        assert(rv.is_prefix_of(cv));
    }
    let suffix = clone_range(&cparts, rlen, clen);
    let combined = concat_parts(prefix_parts, &suffix);
    proof {
        assert(suffix.deep_view() =~= cv.skip(rv.len() as int));
    }
    let path = join_abs_parts(&combined);
    ResolutionOutcome::Contained { path }
}

/// Resolves a path that is lexically known to cross a boundary, given
/// the boundary prefix in component form and the remainder behind it.
/// The prefix is confirmed through the host first, so that an absent
/// prefix and an inaccessible one surface as their own error kinds. A
/// boundary path with no remainder resolves to itself, never to the
/// boundary's target: that is the departure from naive resolution. With
/// a remainder, the outcome of `rebase_outcome` on the host's answers is
/// returned, so the result is absolute either way.
pub fn resolve_boundary(prefix_parts: &Vec<String>, rem_parts: &Vec<String>) -> (r: Result<
    String,
    PathError,
>)
    requires
        all_valid_parts(prefix_parts.deep_view()),
    ensures
        r matches Ok(p) ==> is_abs_text(p@),
        r matches Ok(p) ==> p@ == join_abs(parts_of(p@)),
        rem_parts.deep_view().len() == 0 ==> (r matches Ok(p) ==> p@ == join_abs(
            prefix_parts.deep_view(),
        )),
{
    let prefix_str = join_abs_parts(prefix_parts);
    proof {
        lemma_join_abs_is_abs(prefix_parts.deep_view());
        lemma_parts_of_join_abs(prefix_parts.deep_view());
    }
    let resolved = match host_realpath(prefix_str.as_str()) {
        Ok(s) => s,
        Err(e) => {
            return Err(e);
        },
    };
    if rem_parts.len() == 0 {
        return Ok(prefix_str);
    }
    let full_parts = concat_parts(prefix_parts, rem_parts);
    let full_str = join_abs_parts(&full_parts);
    let canonical = match host_realpath(full_str.as_str()) {
        Ok(s) => s,
        Err(e) => {
            return Err(e);
        },
    };
    let outcome = rebase_outcome(prefix_parts, resolved.as_str(), canonical.as_str());
    proof {
        if contained_in(canonical@, resolved@) {
            crate::text::lemma_parts_of_valid(canonical@);
            let rlen = parts_of(resolved@).len() as int;
            assert(rlen <= parts_of(canonical@).len());
            let suffix = parts_of(canonical@).skip(rlen);
            assert forall|k: int| 0 <= k < suffix.len() implies valid_part(
                #[trigger] suffix[k]) by {
                assert(suffix[k] == parts_of(canonical@)[rlen + k]);
                assert(valid_part(parts_of(canonical@)[rlen + k]));
            }
            lemma_contained_starts_with_prefix(prefix_parts.deep_view(), suffix);
        }
    }
    Ok(outcome.into_path())
}

/// Containment, never ambiguity: a rewritten path is absolute and its
/// components start with exactly the boundary prefix; an escaped path is
/// the host's canonical path itself, so the caller can always tell the
/// two apart by that prefix.
pub proof fn lemma_contained_starts_with_prefix(prefix: Seq<Seq<char>>, suffix: Seq<Seq<char>>)
    requires
        all_valid_parts(prefix),
        all_valid_parts(suffix),
    ensures
        is_abs_text(join_abs(prefix + suffix)),
        parts_of(join_abs(prefix + suffix)) == prefix + suffix,
        prefix.is_prefix_of(parts_of(join_abs(prefix + suffix))),
{
    let w = prefix + suffix;
    assert forall|k: int| 0 <= k < w.len() implies valid_part(#[trigger] w[k]) by {
        if k < prefix.len() {
            assert(w[k] == prefix[k]);
        } else {
            assert(w[k] == suffix[k - prefix.len()]);
        }
    }
    lemma_parts_of_join_abs(w);
    assert(prefix =~= w.take(prefix.len() as int));
}

/// A contained result still matches the boundary, with the same prefix:
/// feeding it back through the lexical matcher finds the very boundary
/// it was rewritten onto. This is the lexical half of idempotence: what
/// the first resolution reports as contained, a second resolution
/// recognizes and routes the same way.
pub proof fn lemma_contained_rematches_boundary(prefix: Seq<Seq<char>>, suffix: Seq<Seq<char>>)
    requires
        is_boundary_prefix(prefix),
        all_valid_parts(prefix),
        all_valid_parts(suffix),
    ensures
        boundary_text_match(join_abs(prefix + suffix)),
        parts_of(join_abs(prefix + suffix)).take(
            crate::boundary::boundary_prefix_len(parts_of(join_abs(prefix + suffix))),
        ) == prefix,
{
    lemma_contained_starts_with_prefix(prefix, suffix);
    lemma_boundary_extend(prefix, suffix);
    let out = join_abs(prefix + suffix);
    assert(parts_of(out).take(crate::boundary::boundary_prefix_len(parts_of(out)))
        =~= prefix);
}

} // verus!

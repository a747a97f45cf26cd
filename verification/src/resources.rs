//! Resource identifiers: a namespace and a path joined by a colon, each
//! drawn from a restricted character set.
use vstd::prelude::*;

use crate::text::{lemma_split_on_at_sep, lemma_split_on_no_sep, split_on};
use vstd::string::StrSliceExecFns;
use vstd::string::StringExecFns;

verus! {

/// Why a resource identifier was rejected.
#[derive(Debug, Clone, Copy, PartialEq, Eq, Structural)]
pub enum ResourceLocationError {
    /// The namespace holds a character outside its allowed set.
    InvalidNamespace,
    /// The path holds a character outside its allowed set.
    InvalidPath,
}

/// A namespaced identifier, written `namespace:path`.
#[derive(Debug, Clone, PartialEq, Eq, Hash)]
pub struct ResourceLocation {
    pub namespace: String,
    pub path: String,
}

/// Whether a character may appear in a namespace: a lowercase ASCII
/// letter, an ASCII digit, `_`, `-` or `.`.
pub open spec fn is_namespace_char(c: char) -> bool {
    let u = c as u32;
    (0x61 <= u <= 0x7a) || (0x30 <= u <= 0x39) || u == 0x5f || u == 0x2d || u == 0x2e
}

/// Whether a character may appear in a path: the namespace set plus `/`.
pub open spec fn is_path_char(c: char) -> bool {
    is_namespace_char(c) || c as u32 == 0x2f
}

/// Whether every character of a namespace is allowed.
pub open spec fn spec_valid_namespace(s: Seq<char>) -> bool {
    forall|i: int| 0 <= i < s.len() ==> is_namespace_char(#[trigger] s[i])
}

/// Whether every character of a path is allowed.
pub open spec fn spec_valid_path(s: Seq<char>) -> bool {
    forall|i: int| 0 <= i < s.len() ==> is_path_char(#[trigger] s[i])
}

impl View for ResourceLocation {
    type V = (Seq<char>, Seq<char>);

    open spec fn view(&self) -> (Seq<char>, Seq<char>) {
        (self.namespace@, self.path@)
    }
}

impl ResourceLocation {
    /// The namespace used when an identifier is written without one.
    pub const DEFAULT_NAMESPACE: &'static str = "minecraft";

    /// Builds an identifier after validating both components.
    pub fn new(namespace: &str, path: &str) -> (r: Result<Self, ResourceLocationError>)
        ensures
            r is Ok <==> spec_valid_namespace(namespace@) && spec_valid_path(path@),
            r is Ok ==> r->Ok_0@ == (namespace@, path@),
            r is Err ==> r->Err_0 == (if spec_valid_namespace(namespace@) {
                ResourceLocationError::InvalidPath
            } else {
                ResourceLocationError::InvalidNamespace
            }),
    {
        if !Self::is_valid_namespace(namespace) {
            return Err(ResourceLocationError::InvalidNamespace);
        }
        if !Self::is_valid_path(path) {
            return Err(ResourceLocationError::InvalidPath);
        }
        Ok(ResourceLocation { namespace: String::from_str(namespace), path: String::from_str(path) })
    }

    /// Whether every character of `namespace` is in the allowed set.
    pub fn is_valid_namespace(namespace: &str) -> (r: bool)
        ensures
            r == spec_valid_namespace(namespace@),
    {
        let n = namespace.unicode_len();
        let mut i: usize = 0;
        while i < n
            invariant
                n == namespace@.len(),
                i <= n,
                forall|t: int| 0 <= t < i ==> is_namespace_char(#[trigger] namespace@[t]),
            decreases n - i,
        {
            let u = namespace.get_char(i) as u32;
            if !((0x61 <= u && u <= 0x7a) || (0x30 <= u && u <= 0x39) || u == 0x5f || u == 0x2d
                || u == 0x2e) {
                return false;
            }
            i = i + 1;
        }
        true
    }

    /// Whether every character of `path` is in the allowed set.
    pub fn is_valid_path(path: &str) -> (r: bool)
        ensures
            r == spec_valid_path(path@),
    {
        let n = path.unicode_len();
        let mut i: usize = 0;
        while i < n
            invariant
                n == path@.len(),
                i <= n,
                forall|t: int| 0 <= t < i ==> is_path_char(#[trigger] path@[t]),
            decreases n - i,
        {
            let u = path.get_char(i) as u32;
            if !((0x61 <= u && u <= 0x7a) || (0x30 <= u && u <= 0x39) || u == 0x5f || u == 0x2d
                || u == 0x2e || u == 0x2f) {
                return false;
            }
            i = i + 1;
        }
        true
    }

    /// Whether both stored components are valid.
    pub fn is_valid(&self) -> (r: bool)
        ensures
            r == (spec_valid_namespace(self.namespace@) && spec_valid_path(self.path@)),
    {
        Self::is_valid_namespace(self.namespace.as_str()) && Self::is_valid_path(
            self.path.as_str(),
        )
    }

    /// The identifier written out as `namespace:path`.
    pub fn to_string(&self) -> (r: String)
        ensures
            r@ == self.namespace@ + ":"@ + self.path@,
    {
        let mut out = String::from_str(self.namespace.as_str());
        out.append(":");
        out.append(self.path.as_str());
        out
    }

    /// Parses `namespace:path`; without a colon, the namespace defaults
    /// to `minecraft` and the whole input is the path. Text after a
    /// second colon stays in the path and is rejected there.
    pub fn from_str(s: &str) -> (r: Result<Self, ResourceLocationError>)
        ensures
            ({
                let parts = split_on(s@, ':');
                if parts.len() == 1 {
                    &&& (r is Ok <==> spec_valid_namespace("minecraft"@) && spec_valid_path(s@))
                    &&& (r is Ok ==> r->Ok_0@ == ("minecraft"@, s@))
                } else {
                    let ns = parts[0];
                    let rest = s@.skip(ns.len() as int + 1);
                    &&& (r is Ok <==> spec_valid_namespace(ns) && spec_valid_path(rest))
                    &&& (r is Ok ==> r->Ok_0@ == (ns, rest))
                }
            }),
    {
        let n = s.unicode_len();
        let mut i: usize = 0;
        while i < n
            invariant
                n == s@.len(),
                i <= n,
                forall|t: int| 0 <= t < i ==> s@[t] != ':',
            decreases n - i,
        {
            if s.get_char(i) == ':' {
                let namespace = s.substring_char(0, i);
                let path = s.substring_char(i + 1, n);
                proof {
                    lemma_split_on_at_sep(s@, ':', i as int);
                    assert(s@.take(i as int) =~= namespace@);
                    assert(s@.skip(i + 1) =~= path@);
                    crate::text::lemma_split_on_len(s@.skip(i + 1), ':');
                }
                return Self::new(namespace, path);
            }
            i = i + 1;
        }
        proof {
            lemma_split_on_no_sep(s@, ':');
        }
        Self::new(Self::DEFAULT_NAMESPACE, s)
    }
}

} // verus!

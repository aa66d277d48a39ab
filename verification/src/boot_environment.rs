//! A boot environment: one installation's datasets under `pool/prefix`.

use vstd::prelude::*;

use crate::text::{chars_of, chars_to_string, extend_str};

verus! {

#[derive(Debug, Clone, PartialEq, Eq)]
pub struct BootEnvironment {
    pub pool: String,
    pub prefix: String,
}

/// `pool/prefix`.
pub open spec fn be_base(pool: Seq<char>, prefix: Seq<char>) -> Seq<char> {
    pool + seq!['/'] + prefix
}

/// `pool/prefix/root`.
pub open spec fn be_root(pool: Seq<char>, prefix: Seq<char>) -> Seq<char> {
    be_base(pool, prefix) + "/root"@
}

impl BootEnvironment {
    pub fn new(pool: &str, prefix: &str) -> (r: Self)
        ensures
            r.pool@ == pool@,
            r.prefix@ == prefix@,
    {
        BootEnvironment { pool: pool.to_string(), prefix: prefix.to_string() }
    }

    /// The dataset every other dataset of the environment lives under.
    pub fn base(&self) -> (r: String)
        ensures
            r@ == be_base(self.pool@, self.prefix@),
    {
        let mut v = chars_of(self.pool.as_str());
        v.push('/');
        extend_str(&mut v, self.prefix.as_str());
        chars_to_string(&v)
    }

    /// The environment's root filesystem dataset.
    pub fn root_dataset(&self) -> (r: String)
        ensures
            r@ == be_root(self.pool@, self.prefix@),
    {
        let mut v = chars_of(self.pool.as_str());
        v.push('/');
        extend_str(&mut v, self.prefix.as_str());
        extend_str(&mut v, "/root");
        assert(v@ =~= be_root(self.pool@, self.prefix@));
        chars_to_string(&v)
    }
}

} // verus!

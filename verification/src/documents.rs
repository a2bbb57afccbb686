//! Document shapes for authoring a new name, with filled-in examples the
//! command line can print as a starting point.

use vstd::prelude::*;

verus! {

/// One child descriptor inside a create document.
pub struct ChildCreate {
    pub name: String,
    pub pubkey: String,
    pub children: Vec<ChildCreate>,
}

impl ChildCreate {
    /// A filled-in example of a child descriptor.
    pub fn create_example() -> (r: ChildCreate)
        ensures
            r.name@ == "child-name"@,
            r.pubkey@ == "child-pubkey-hex"@,
            r.children@.len() == 0,
    {
        ChildCreate {
            name: "child-name".to_owned(),
            pubkey: "child-pubkey-hex".to_owned(),
            children: Vec::new(),
        }
    }
}

/// The document a user fills in to author a new name.
pub struct Create {
    pub name: String,
    pub txid: String,
    pub vout: u64,
    pub address: String,
    pub pubkey: String,
    pub fee_rate: usize,
    pub children: Vec<ChildCreate>,
}

impl Create {
    /// A filled-in example of a create document, with one child.
    pub fn create_example() -> (r: Create)
        ensures
            r.name@ == "example-name"@,
            r.txid@ == "input-txid"@,
            r.vout == 0,
            r.address@ == "bc1..."@,
            r.pubkey@ == "pubkey hex..."@,
            r.fee_rate == 1,
            r.children@.len() == 1,
            r.children@[0].name@ == "child-name"@,
    {
        let mut children: Vec<ChildCreate> = Vec::new();
        children.push(ChildCreate::create_example());
        Create {
            name: "example-name".to_owned(),
            txid: "input-txid".to_owned(),
            vout: 0,
            address: "bc1...".to_owned(),
            pubkey: "pubkey hex...".to_owned(),
            fee_rate: 1,
            children,
        }
    }
}

} // verus!

use vstd::prelude::*;

use crate::errors::RpcError;

verus! {

/// The address variant of an entity the engine created.
#[derive(Debug, Clone, Copy, PartialEq, Eq, Structural)]
pub enum EntityKind {
    Package,
    Component,
    ResourceDef,
}

/// An entity the engine created, with its address as text.
#[derive(Debug, Clone)]
pub struct NewEntity {
    pub kind: EntityKind,
    pub address: String,
}

/// What the engine hands back once it has run a transaction.
#[derive(Debug, Clone)]
pub struct Receipt {
    /// Whether the transaction's own logic succeeded.
    pub success: bool,
    /// Each output value, already formatted for display, in engine order.
    pub outputs: Vec<String>,
    /// The created entities, in engine order.
    pub new_entities: Vec<NewEntity>,
}

/// The reply to a successful "run".
#[derive(Debug)]
pub struct RunSummary {
    pub packages: Vec<String>,
    pub components: Vec<String>,
    pub resource_defs: Vec<String>,
    pub outputs: Vec<String>,
}

/// The addresses of the entities of kind `k`, in order.
pub open spec fn addresses_of_kind(s: Seq<NewEntity>, k: EntityKind) -> Seq<Seq<char>>
    decreases s.len(),
{
    if s.len() == 0 {
        Seq::empty()
    } else {
        let rest = addresses_of_kind(s.drop_last(), k);
        if s.last().kind == k {
            rest.push(s.last().address@)
        } else {
            rest
        }
    }
}

pub open spec fn texts(s: Seq<String>) -> Seq<Seq<char>> {
    s.map_values(|t: String| t@)
}

/// Keeps the signer keys if every one of them parsed; a single key that did
/// not parse refuses the whole list.
pub fn collect_signers(parsed: &Vec<Option<Vec<u8>>>) -> (r: Result<Vec<Vec<u8>>, RpcError>)
    ensures
        (exists|k: int| 0 <= k < parsed@.len() && (#[trigger] parsed@[k]).is_none()) ==> (r matches Err(
            e,
        ) && e == RpcError::KeyParse),
        (forall|k: int| 0 <= k < parsed@.len() ==> (#[trigger] parsed@[k]).is_some()) ==> (r matches Ok(
            keys,
        ) && keys@.len() == parsed@.len() && forall|k: int|
            0 <= k < parsed@.len() ==> (#[trigger] keys@[k])@ == parsed@[k].unwrap()@),
{
    let mut keys: Vec<Vec<u8>> = Vec::new();
    let mut i: usize = 0;
    while i < parsed.len()
        invariant
            i <= parsed@.len(),
            keys@.len() == i,
            forall|k: int| 0 <= k < i ==> (#[trigger] parsed@[k]).is_some() && keys@[k]@ == parsed@[k].unwrap()@,
        decreases parsed@.len() - i,
    {
        match &parsed[i] {
            Some(key) => {
                keys.push(key.clone());
            },
            None => {
                return Err(RpcError::KeyParse);
            },
        }
        i = i + 1;
    }
    Ok(keys)
}

fn addresses(es: &Vec<NewEntity>, kind: EntityKind) -> (r: Vec<String>)
    ensures
        texts(r@) == addresses_of_kind(es@, kind),
{
    let mut out: Vec<String> = Vec::new();
    let mut i: usize = 0;
    while i < es.len()
        invariant
            i <= es@.len(),
            texts(out@) == addresses_of_kind(es@.subrange(0, i as int), kind),
        decreases es@.len() - i,
    {
        let ghost old_out = out@;
        if es[i].kind == kind {
            out.push(es[i].address.clone());
            assert(texts(out@) == texts(old_out).push(es@[i as int].address@));
        }
        assert(es@.subrange(0, i + 1).drop_last() == es@.subrange(0, i as int));
        i = i + 1;
    }
    assert(es@.subrange(0, es@.len() as int) == es@);
    out
}

fn copy_texts(s: &Vec<String>) -> (r: Vec<String>)
    ensures
        texts(r@) == texts(s@),
{
    let mut out: Vec<String> = Vec::new();
    let mut i: usize = 0;
    while i < s.len()
        invariant
            i <= s@.len(),
            texts(out@) == texts(s@.subrange(0, i as int)),
        decreases s@.len() - i,
    {
        let ghost old_out = out@;
        out.push(s[i].clone());
        assert(texts(out@) =~= texts(old_out).push(s@[i as int]@));
        assert(texts(s@.subrange(0, i + 1)) =~= texts(s@.subrange(0, i as int)).push(s@[i as int]@));
        i = i + 1;
    }
    assert(s@.subrange(0, s@.len() as int) == s@);
    out
}

/// Splits the created entities by address variant, each list in engine
/// order, and keeps the outputs as the engine produced them.
pub fn summarize(receipt: &Receipt) -> (r: RunSummary)
    ensures
        texts(r.packages@) == addresses_of_kind(receipt.new_entities@, EntityKind::Package),
        texts(r.components@) == addresses_of_kind(receipt.new_entities@, EntityKind::Component),
        texts(r.resource_defs@) == addresses_of_kind(receipt.new_entities@, EntityKind::ResourceDef),
        texts(r.outputs@) == texts(receipt.outputs@),
{
    RunSummary {
        packages: addresses(&receipt.new_entities, EntityKind::Package),
        components: addresses(&receipt.new_entities, EntityKind::Component),
        resource_defs: addresses(&receipt.new_entities, EntityKind::ResourceDef),
        outputs: copy_texts(&receipt.outputs),
    }
}

/// Maps the course of a "run" to its reply: a manifest that did not compile,
/// an engine that could not run, and a transaction that ran and failed are
/// three distinct errors.
pub fn run_result(compiled: bool, receipt: &Option<Receipt>) -> (r: Result<RunSummary, RpcError>)
    ensures
        !compiled ==> (r matches Err(e) && e == RpcError::Compile),
        compiled && receipt.is_none() ==> (r matches Err(e) && e == RpcError::EngineFailed),
        compiled && receipt.is_some() && !receipt.unwrap().success ==> (r matches Err(e) && e
            == RpcError::OutcomeRejected),
        compiled && receipt.is_some() && receipt.unwrap().success ==> (r matches Ok(s) && texts(
            s.outputs@,
        ) == texts(receipt.unwrap().outputs@) && texts(s.packages@) == addresses_of_kind(
            receipt.unwrap().new_entities@,
            EntityKind::Package,
        ) && texts(s.components@) == addresses_of_kind(
            receipt.unwrap().new_entities@,
            EntityKind::Component,
        ) && texts(s.resource_defs@) == addresses_of_kind(
            receipt.unwrap().new_entities@,
            EntityKind::ResourceDef,
        )),
{
    if !compiled {
        return Err(RpcError::Compile);
    }
    match receipt {
        None => Err(RpcError::EngineFailed),
        Some(rc) => {
            if rc.success {
                Ok(summarize(rc))
            } else {
                Err(RpcError::OutcomeRejected)
            }
        },
    }
}

} // verus!

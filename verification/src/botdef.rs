//! The bot definition: the tuning of a kind of bot together with the tree
//! of its parts, and its encoding as bytes.
//!
//! The encoding is the fields in the order in which they are declared,
//! every integer in little-endian order. Decoding accepts exactly the
//! encodings of definitions with a well-formed part tree, and gives back
//! the definition that was encoded.

use crate::error::CoreError;
use crate::id::{BotDefId, Id, IdValue};
use crate::part::Scalar;
use crate::part_tree::PartTree;
use crate::tree_codec::{
    enc_tree, get_tree, lemma_enc_read_tree, lemma_read_enc_tree, put_tree, read_tree, tree_fits,
};
use crate::tree_model::{well_formed, NodeView};
use crate::wire::{
    enc_i32, enc_u32, enc_u64, get_i32, get_u32, get_u64, lemma_enc_read_i32,
    lemma_enc_read_u32, lemma_enc_read_u64, lemma_holds_all, lemma_holds_join,
    lemma_holds_split, lemma_holds_whole, lemma_read_enc_i32, lemma_read_enc_u32,
    lemma_read_enc_u64, put_i32, put_u32, put_u64, read_i32, read_u32, read_u64,
};
use vstd::prelude::*;

verus! {

/// The definition of a kind of bot.
#[derive(Debug, PartialEq, Eq)]
pub struct BotDef {
    pub id: BotDefId,
    pub radius: Scalar,
    pub max_life: i32,
    pub turn_accel: Scalar,
    pub max_turn_rate: Scalar,
    pub accel: Scalar,
    pub break_accel: Scalar,
    pub max_speed: Scalar,
    pub part_tree: PartTree,
}

/// The mathematical content of a bot definition.
pub struct BotDefView {
    pub id: IdValue,
    pub radius: Scalar,
    pub max_life: i32,
    pub turn_accel: Scalar,
    pub max_turn_rate: Scalar,
    pub accel: Scalar,
    pub break_accel: Scalar,
    pub max_speed: Scalar,
    pub part_tree: Seq<NodeView>,
}

impl View for BotDef {
    type V = BotDefView;

    open spec fn view(&self) -> BotDefView {
        BotDefView {
            id: self.id@,
            radius: self.radius,
            max_life: self.max_life,
            turn_accel: self.turn_accel,
            max_turn_rate: self.max_turn_rate,
            accel: self.accel,
            break_accel: self.break_accel,
            max_speed: self.max_speed,
            part_tree: self.part_tree@,
        }
    }
}

/// The encoding of a bot definition.
pub open spec fn enc_botdef(v: BotDefView) -> Seq<u8> {
    enc_u64(v.id) + enc_u32(v.radius.bits) + enc_i32(v.max_life) + enc_u32(v.turn_accel.bits)
        + enc_u32(v.max_turn_rate.bits) + enc_u32(v.accel.bits) + enc_u32(v.break_accel.bits)
        + enc_u32(v.max_speed.bits) + enc_tree(v.part_tree)
}

/// The tuning of a bot definition, read from the first 36 bytes: every
/// field but the part tree, which is left empty.
pub open spec fn read_tuning(b: Seq<u8>) -> Option<BotDefView> {
    if b.len() < 36 {
        None
    } else {
        Some(
            BotDefView {
                id: read_u64(b, 0)->Some_0.0,
                radius: Scalar { bits: read_u32(b, 8)->Some_0.0 },
                max_life: read_i32(b, 12)->Some_0.0,
                turn_accel: Scalar { bits: read_u32(b, 16)->Some_0.0 },
                max_turn_rate: Scalar { bits: read_u32(b, 20)->Some_0.0 },
                accel: Scalar { bits: read_u32(b, 24)->Some_0.0 },
                break_accel: Scalar { bits: read_u32(b, 28)->Some_0.0 },
                max_speed: Scalar { bits: read_u32(b, 32)->Some_0.0 },
                part_tree: Seq::empty(),
            },
        )
    }
}

/// The bot definition that the bytes encode, if they encode one: the
/// tuning, then a well-formed part tree, then nothing.
pub open spec fn read_botdef(b: Seq<u8>) -> Option<BotDefView> {
    match read_tuning(b) {
        Some(tuning) => match read_tree(b, 36) {
            Some((part_tree, next)) => if next == b.len() {
                Some(
                    BotDefView {
                        id: tuning.id,
                        radius: tuning.radius,
                        max_life: tuning.max_life,
                        turn_accel: tuning.turn_accel,
                        max_turn_rate: tuning.max_turn_rate,
                        accel: tuning.accel,
                        break_accel: tuning.break_accel,
                        max_speed: tuning.max_speed,
                        part_tree,
                    },
                )
            } else {
                None
            },
            None => None,
        },
        None => None,
    }
}

/// Decoding undoes encoding: the encoding of a bot definition whose part
/// tree is well formed, and small enough to be encoded, decodes to that
/// definition, field for field.
pub proof fn law_decode_encode(v: BotDefView)
    requires
        well_formed(v.part_tree),
        tree_fits(v.part_tree),
    ensures
        read_botdef(enc_botdef(v)) == Some(v),
{
    let b = enc_botdef(v);
    let e1 = enc_u64(v.id);
    let e2 = enc_u32(v.radius.bits);
    let e3 = enc_i32(v.max_life);
    let e4 = enc_u32(v.turn_accel.bits);
    let e5 = enc_u32(v.max_turn_rate.bits);
    let e6 = enc_u32(v.accel.bits);
    let e7 = enc_u32(v.break_accel.bits);
    let e8 = enc_u32(v.max_speed.bits);
    let e9 = enc_tree(v.part_tree);
    lemma_holds_whole(b);
    lemma_holds_split(b, 0, e1 + e2 + e3 + e4 + e5 + e6 + e7 + e8, e9);
    lemma_holds_split(b, 0, e1 + e2 + e3 + e4 + e5 + e6 + e7, e8);
    lemma_holds_split(b, 0, e1 + e2 + e3 + e4 + e5 + e6, e7);
    lemma_holds_split(b, 0, e1 + e2 + e3 + e4 + e5, e6);
    lemma_holds_split(b, 0, e1 + e2 + e3 + e4, e5);
    lemma_holds_split(b, 0, e1 + e2 + e3, e4);
    lemma_holds_split(b, 0, e1 + e2, e3);
    lemma_holds_split(b, 0, e1, e2);
    lemma_read_enc_u64(b, 0, v.id);
    lemma_read_enc_u32(b, 8, v.radius.bits);
    lemma_read_enc_i32(b, 12, v.max_life);
    lemma_read_enc_u32(b, 16, v.turn_accel.bits);
    lemma_read_enc_u32(b, 20, v.max_turn_rate.bits);
    lemma_read_enc_u32(b, 24, v.accel.bits);
    lemma_read_enc_u32(b, 28, v.break_accel.bits);
    lemma_read_enc_u32(b, 32, v.max_speed.bits);
    lemma_read_enc_tree(b, 36, v.part_tree);
}

/// Encoding undoes decoding: bytes that decode to a bot definition are
/// the encoding of that definition, whose part tree is well formed and
/// small enough to be encoded. So no two byte sequences decode to the
/// same definition.
pub proof fn law_encode_decode(b: Seq<u8>)
    requires
        read_botdef(b) is Some,
    ensures
        enc_botdef(read_botdef(b)->Some_0) == b,
        well_formed(read_botdef(b)->Some_0.part_tree),
        tree_fits(read_botdef(b)->Some_0.part_tree),
{
    let v = read_botdef(b)->Some_0;
    let e1 = enc_u64(v.id);
    let e2 = enc_u32(v.radius.bits);
    let e3 = enc_i32(v.max_life);
    let e4 = enc_u32(v.turn_accel.bits);
    let e5 = enc_u32(v.max_turn_rate.bits);
    let e6 = enc_u32(v.accel.bits);
    let e7 = enc_u32(v.break_accel.bits);
    let e8 = enc_u32(v.max_speed.bits);
    let e9 = enc_tree(v.part_tree);
    lemma_enc_read_u64(b, 0);
    lemma_enc_read_u32(b, 8);
    lemma_enc_read_i32(b, 12);
    lemma_enc_read_u32(b, 16);
    lemma_enc_read_u32(b, 20);
    lemma_enc_read_u32(b, 24);
    lemma_enc_read_u32(b, 28);
    lemma_enc_read_u32(b, 32);
    lemma_enc_read_tree(b, 36);
    lemma_holds_join(b, 0, e1, e2);
    lemma_holds_join(b, 0, e1 + e2, e3);
    lemma_holds_join(b, 0, e1 + e2 + e3, e4);
    lemma_holds_join(b, 0, e1 + e2 + e3 + e4, e5);
    lemma_holds_join(b, 0, e1 + e2 + e3 + e4 + e5, e6);
    lemma_holds_join(b, 0, e1 + e2 + e3 + e4 + e5 + e6, e7);
    lemma_holds_join(b, 0, e1 + e2 + e3 + e4 + e5 + e6 + e7, e8);
    lemma_holds_join(b, 0, e1 + e2 + e3 + e4 + e5 + e6 + e7 + e8, e9);
    lemma_holds_all(b, enc_botdef(v));
}

impl Clone for BotDef {
    fn clone(&self) -> (def: Self)
        ensures
            def@ == self@,
    {
        BotDef {
            id: self.id,
            radius: self.radius,
            max_life: self.max_life,
            turn_accel: self.turn_accel,
            max_turn_rate: self.max_turn_rate,
            accel: self.accel,
            break_accel: self.break_accel,
            max_speed: self.max_speed,
            part_tree: self.part_tree.clone(),
        }
    }
}

impl BotDef {
    /// The part tree is a tree.
    pub open spec fn wf(&self) -> bool {
        self.part_tree.wf()
    }

    /// Sets the life that a bot of this kind starts with; a negative
    /// value counts as zero.
    pub fn set_max_life(&mut self, life: i32)
        ensures
            final(self).max_life == if life < 0 {
                0
            } else {
                life
            },
            final(self)@ == (BotDefView { max_life: final(self).max_life, ..old(self)@ }),
    {
        self.max_life = if life < 0 {
            0
        } else {
            life
        };
    }

    /// The encoding of this definition.
    pub fn encode(&self) -> (bytes: Vec<u8>)
        ensures
            bytes@ == enc_botdef(self@),
            tree_fits(self@.part_tree),
    {
        let mut out: Vec<u8> = Vec::new();
        put_u64(&mut out, self.id.value());
        put_u32(&mut out, self.radius.bits);
        put_i32(&mut out, self.max_life);
        put_u32(&mut out, self.turn_accel.bits);
        put_u32(&mut out, self.max_turn_rate.bits);
        put_u32(&mut out, self.accel.bits);
        put_u32(&mut out, self.break_accel.bits);
        put_u32(&mut out, self.max_speed.bits);
        put_tree(&mut out, &self.part_tree);
        assert(out@ =~= enc_botdef(self@));
        out
    }

    /// The definition that the bytes encode. Fails exactly if they are
    /// not the encoding of a definition with a well-formed part tree.
    pub fn decode(bytes: &[u8]) -> (def: Result<BotDef, CoreError>)
        ensures
            match def {
                Ok(d) => {
                    &&& read_botdef(bytes@) == Some(d@)
                    &&& d.wf()
                    &&& enc_botdef(d@) == bytes@
                },
                Err(e) => {
                    &&& e == CoreError::CorruptData
                    &&& read_botdef(bytes@) is None
                    &&& forall|v: BotDefView|
                        well_formed(v.part_tree) && tree_fits(v.part_tree) ==> #[trigger] enc_botdef(
                            v,
                        ) != bytes@
                },
            },
    {
        proof {
            if read_botdef(bytes@) is Some {
                law_encode_decode(bytes@);
            } else {
                assert forall|v: BotDefView|
                    well_formed(v.part_tree) && tree_fits(v.part_tree) implies #[trigger] enc_botdef(
                    v,
                ) != bytes@ by {
                    law_decode_encode(v);
                }
            }
        }
        if bytes.len() < 36 {
            return Err(CoreError::CorruptData);
        }
        let id: u64 = match get_u64(bytes, 0) {
            Some((x, _)) => x,
            None => {
                return Err(CoreError::CorruptData);
            },
        };
        let radius: u32 = match get_u32(bytes, 8) {
            Some((x, _)) => x,
            None => {
                return Err(CoreError::CorruptData);
            },
        };
        let max_life: i32 = match get_i32(bytes, 12) {
            Some((x, _)) => x,
            None => {
                return Err(CoreError::CorruptData);
            },
        };
        let turn_accel: u32 = match get_u32(bytes, 16) {
            Some((x, _)) => x,
            None => {
                return Err(CoreError::CorruptData);
            },
        };
        let max_turn_rate: u32 = match get_u32(bytes, 20) {
            Some((x, _)) => x,
            None => {
                return Err(CoreError::CorruptData);
            },
        };
        let accel: u32 = match get_u32(bytes, 24) {
            Some((x, _)) => x,
            None => {
                return Err(CoreError::CorruptData);
            },
        };
        let break_accel: u32 = match get_u32(bytes, 28) {
            Some((x, _)) => x,
            None => {
                return Err(CoreError::CorruptData);
            },
        };
        let max_speed: u32 = match get_u32(bytes, 32) {
            Some((x, _)) => x,
            None => {
                return Err(CoreError::CorruptData);
            },
        };
        let (part_tree, next) = match get_tree(bytes, 36) {
            Some(r) => r,
            None => {
                return Err(CoreError::CorruptData);
            },
        };
        if next != bytes.len() {
            return Err(CoreError::CorruptData);
        }
        Ok(
            BotDef {
                id: Id::from_value(id),
                radius: Scalar { bits: radius },
                max_life,
                turn_accel: Scalar { bits: turn_accel },
                max_turn_rate: Scalar { bits: max_turn_rate },
                accel: Scalar { bits: accel },
                break_accel: Scalar { bits: break_accel },
                max_speed: Scalar { bits: max_speed },
                part_tree,
            },
        )
    }
}

} // verus!

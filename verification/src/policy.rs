//! Keep/delete disposition and the fixed display order of a parsed
//! record.
//!
//! The `Resultado` field decides: `100` or `124` mean the response is a
//! terminal success and the file is kept; any other present value means
//! rejection and the file is deleted; an absent field leaves the file
//! untouched.

use vstd::prelude::*;
use crate::record::{PropertyRecord, pair_views};
use crate::text::bytes_eq;

verus! {

/// What happens to a response file once its record is read.
#[derive(Clone, Copy, Debug, PartialEq, Eq, Structural)]
pub enum Disposition {
    Kept,
    Deleted,
    Unknown,
}

/// The `Resultado` key.
pub open spec fn key_resultado() -> Seq<u8> {
    seq![82u8, 101u8, 115u8, 117u8, 108u8, 116u8, 97u8, 100u8, 111u8]
}

/// The `Nprotocolo` key.
pub open spec fn key_nprotocolo() -> Seq<u8> {
    seq![78u8, 112u8, 114u8, 111u8, 116u8, 111u8, 99u8, 111u8, 108u8, 111u8]
}

/// The `Mensagem` key.
pub open spec fn key_mensagem() -> Seq<u8> {
    seq![77u8, 101u8, 110u8, 115u8, 97u8, 103u8, 101u8, 109u8]
}

/// The `ChaveNFe` key.
pub open spec fn key_chave_nfe() -> Seq<u8> {
    seq![67u8, 104u8, 97u8, 118u8, 101u8, 78u8, 70u8, 101u8]
}

/// The success code `100`.
pub open spec fn code_kept_100() -> Seq<u8> {
    seq![49u8, 48u8, 48u8]
}

/// The success code `124`.
pub open spec fn code_kept_124() -> Seq<u8> {
    seq![49u8, 50u8, 52u8]
}

/// The `Resultado` key as bytes.
pub fn key_resultado_bytes() -> (r: Vec<u8>)
    ensures
        r@ == key_resultado(),
{
    let r = vec![82u8, 101u8, 115u8, 117u8, 108u8, 116u8, 97u8, 100u8, 111u8];
    proof {
        assert(r@ =~= key_resultado());
    }
    r
}

/// The `Nprotocolo` key as bytes.
pub fn key_nprotocolo_bytes() -> (r: Vec<u8>)
    ensures
        r@ == key_nprotocolo(),
{
    let r = vec![78u8, 112u8, 114u8, 111u8, 116u8, 111u8, 99u8, 111u8, 108u8, 111u8];
    proof {
        assert(r@ =~= key_nprotocolo());
    }
    r
}

/// The `Mensagem` key as bytes.
pub fn key_mensagem_bytes() -> (r: Vec<u8>)
    ensures
        r@ == key_mensagem(),
{
    let r = vec![77u8, 101u8, 110u8, 115u8, 97u8, 103u8, 101u8, 109u8];
    proof {
        assert(r@ =~= key_mensagem());
    }
    r
}

/// The `ChaveNFe` key as bytes.
pub fn key_chave_nfe_bytes() -> (r: Vec<u8>)
    ensures
        r@ == key_chave_nfe(),
{
    let r = vec![67u8, 104u8, 97u8, 118u8, 101u8, 78u8, 70u8, 101u8];
    proof {
        assert(r@ =~= key_chave_nfe());
    }
    r
}

/// The disposition a record decides.
pub open spec fn disposition_of(m: Map<Seq<u8>, Seq<u8>>) -> Disposition {
    if !m.contains_key(key_resultado()) {
        Disposition::Unknown
    } else if m[key_resultado()] == code_kept_100() || m[key_resultado()] == code_kept_124() {
        Disposition::Kept
    } else {
        Disposition::Deleted
    }
}

/// Decide keep/delete for a parsed record.
pub fn decide(rec: &PropertyRecord) -> (d: Disposition)
    requires
        rec.wf(),
    ensures
        d == disposition_of(rec@),
{
    let key = key_resultado_bytes();
    match rec.get(key.as_slice()) {
        Option::Some(v) => {
            let c100 = vec![49u8, 48u8, 48u8];
            let c124 = vec![49u8, 50u8, 52u8];
            proof {
                assert(c100@ =~= code_kept_100());
                assert(c124@ =~= code_kept_124());
            }
            if bytes_eq(v.as_slice(), c100.as_slice()) || bytes_eq(v.as_slice(), c124.as_slice()) {
                Disposition::Kept
            } else {
                Disposition::Deleted
            }
        },
        Option::None => Disposition::Unknown,
    }
}

/// Law: result codes `100` and `124` always yield Kept; any other
/// present value yields Deleted; an absent code yields Unknown.
pub proof fn lemma_disposition_cases(m: Map<Seq<u8>, Seq<u8>>)
    ensures
        (disposition_of(m) == Disposition::Kept) <==> (m.contains_key(key_resultado())
            && (m[key_resultado()] == code_kept_100() || m[key_resultado()] == code_kept_124())),
        (disposition_of(m) == Disposition::Deleted) <==> (m.contains_key(key_resultado())
            && m[key_resultado()] != code_kept_100() && m[key_resultado()] != code_kept_124()),
        (disposition_of(m) == Disposition::Unknown) <==> !m.contains_key(key_resultado()),
{
}

/// The display row of one field, if present.
pub open spec fn display_entry(m: Map<Seq<u8>, Seq<u8>>, k: Seq<u8>) -> Seq<(Seq<u8>, Seq<u8>)> {
    if m.contains_key(k) {
        seq![(k, m[k])]
    } else {
        Seq::empty()
    }
}

/// The rows a record displays: of the four known fields, those present,
/// in the fixed order Resultado, Nprotocolo, Mensagem, ChaveNFe.
pub open spec fn display_rows(m: Map<Seq<u8>, Seq<u8>>) -> Seq<(Seq<u8>, Seq<u8>)> {
    display_entry(m, key_resultado()) + display_entry(m, key_nprotocolo()) + display_entry(
        m,
        key_mensagem(),
    ) + display_entry(m, key_chave_nfe())
}

/// Append the display row of one field, if present.
fn push_display(rec: &PropertyRecord, key: Vec<u8>, acc: &mut Vec<(Vec<u8>, Vec<u8>)>)
    requires
        rec.wf(),
    ensures
        pair_views(final(acc)@) == pair_views(old(acc)@) + display_entry(rec@, key@),
{
    match rec.get(key.as_slice()) {
        Option::Some(v) => {
            let ghost before = acc@;
            acc.push((key, v));
            proof {
                assert(pair_views(acc@) =~= pair_views(before) + display_entry(rec@, key@));
            }
        },
        Option::None => {
            proof {
                assert(pair_views(acc@) =~= pair_views(acc@) + display_entry(rec@, key@));
            }
        },
    }
}

/// The rows to print for a record, in the fixed display order.
pub fn display_lines(rec: &PropertyRecord) -> (r: Vec<(Vec<u8>, Vec<u8>)>)
    requires
        rec.wf(),
    ensures
        pair_views(r@) == display_rows(rec@),
{
    let mut r: Vec<(Vec<u8>, Vec<u8>)> = Vec::new();
    proof {
        assert(pair_views(r@) =~= Seq::<(Seq<u8>, Seq<u8>)>::empty());
    }
    push_display(rec, key_resultado_bytes(), &mut r);
    push_display(rec, key_nprotocolo_bytes(), &mut r);
    push_display(rec, key_mensagem_bytes(), &mut r);
    push_display(rec, key_chave_nfe_bytes(), &mut r);
    proof {
        assert(pair_views(r@) =~= display_rows(rec@));
    }
    r
}

} // verus!

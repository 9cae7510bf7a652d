//! TLS trust configuration: built-in Mozilla roots, the platform roots as a
//! fallback when certificate verification fails, and a private CA bundle
//! (`EDUCE_CA_PEM`) whose roots and intermediates are all trust anchors.
//! The application builds the root stores and TLS configurations; the PEM
//! bundle is read here.
use vstd::prelude::*;

use crate::text::{chars_to_string, push_str, str_chars};

verus! {

/// Environment variable naming a private CA bundle (PEM, roots and intermediates).
pub const ENV_CA_PEM: &'static str = "EDUCE_CA_PEM";

/// Where trust anchors come from.
#[derive(Debug, Clone, Copy, PartialEq, Eq)]
pub enum TrustSource {
    /// Built-in Mozilla roots (webpki-roots).
    Builtin,
    /// The platform's root store.
    System,
}

/// What `rustls_pemfile::certs` yields for a PEM bundle, item by item:
/// the DER bytes of a certificate, or `None` for an entry it reports as an
/// error.
pub uninterp spec fn pem_items(data: Seq<u8>) -> Seq<Option<Seq<u8>>>;

pub open spec fn blobs_view(v: Seq<Vec<u8>>) -> Seq<Seq<u8>> {
    v.map_values(|b: Vec<u8>| b@)
}

pub open spec fn items_view(v: Seq<Option<Vec<u8>>>) -> Seq<Option<Seq<u8>>> {
    v.map_values(|o: Option<Vec<u8>>| match o {
        Some(b) => Some(b@),
        None => None,
    })
}

/// The certificates among the items, in order, skipping the failed entries.
pub open spec fn readable_certificates(items: Seq<Option<Seq<u8>>>) -> Seq<Seq<u8>>
    decreases items.len(),
{
    if items.len() == 0 {
        seq![]
    } else {
        let p = readable_certificates(items.drop_last());
        match items.last() {
            Some(c) => p.push(c),
            None => p,
        }
    }
}

/// Whether every item of a bundle read as a certificate.
pub open spec fn all_read(items: Seq<Option<Seq<u8>>>) -> bool {
    forall|i: int| 0 <= i < items.len() ==> #[trigger] items[i] is Some
}

/// `rustls_pemfile::certs` over the bytes, each item kept (an error as `None`).
#[verifier::external_body]
fn read_pem_items(data: &[u8]) -> (r: Vec<Option<Vec<u8>>>)
    ensures
        items_view(r@) == pem_items(data@),
{
    let mut rd: &[u8] = data;
    rustls_pemfile::certs(&mut rd).map(|c| c.ok().map(|c| c.to_vec())).collect()
}

/// The certificates of the items up to the first failed one, and whether
/// none failed.
fn collect_readable(items: Vec<Option<Vec<u8>>>) -> (r: (Vec<Vec<u8>>, bool))
    ensures
        blobs_view(r.0@) == readable_certificates(items_view(items@)),
        r.1 == all_read(items_view(items@)),
{
    let ghost iv = items_view(items@);
    let mut out: Vec<Vec<u8>> = Vec::new();
    let mut ok = true;
    let mut i: usize = 0;
    while i < items.len()
        invariant
            i <= items@.len(),
            iv == items_view(items@),
            blobs_view(out@) == readable_certificates(iv.take(i as int)),
            ok == all_read(iv.take(i as int)),
        decreases items.len() - i,
    {
        assert(iv.take(i + 1).drop_last() =~= iv.take(i as int));
        let ghost prev = out@;
        match &items[i] {
            Some(c) => {
                out.push(c.clone());
                assert(blobs_view(out@) =~= blobs_view(prev).push(c@));
            },
            None => {
                ok = false;
                assert(!(iv.take(i + 1)[i as int] is Some));
            },
        }
        assert(blobs_view(out@) == readable_certificates(iv.take(i + 1)));
        assert(ok == all_read(iv.take(i + 1))) by {
            if ok {
                assert forall|k: int| 0 <= k < i + 1 implies #[trigger] iv.take(i + 1)[k] is Some by {
                    if k < i {
                        assert(iv.take(i as int)[k] is Some);
                    }
                }
            }
        }
        i += 1;
    }
    assert(iv.take(items@.len() as int) =~= iv);
    (out, ok)
}

/// The certificates of a PEM bundle read from `path`: an error when an
/// entry does not parse or when it holds none.
pub fn certs_from_pem(data: &Vec<u8>, path: &str) -> (r: Result<Vec<Vec<u8>>, String>)
    ensures
        ({
            let items = pem_items(data@);
            if !all_read(items) {
                r matches Err(m) && m@ == "解析 PEM 文件失败: "@ + path@
            } else if items.len() == 0 {
                r matches Err(m) && m@ == "PEM 文件中没有任何证书: "@ + path@
            } else {
                r matches Ok(v) && blobs_view(v@) == readable_certificates(items)
            }
        }),
{
    let items = read_pem_items(data.as_slice());
    let n = items.len();
    let (certs, ok) = collect_readable(items);
    if !ok {
        let mut m = str_chars("解析 PEM 文件失败: ");
        push_str(&mut m, path);
        Err(chars_to_string(m.as_slice()))
    } else if n == 0 {
        let mut m = str_chars("PEM 文件中没有任何证书: ");
        push_str(&mut m, path);
        Err(chars_to_string(m.as_slice()))
    } else {
        Ok(certs)
    }
}

/// The certificates of a platform CA bundle, skipping the entries that do
/// not parse.
pub fn bundle_certs(data: &Vec<u8>) -> (r: Vec<Vec<u8>>)
    ensures
        blobs_view(r@) == readable_certificates(pem_items(data@)),
{
    let items = read_pem_items(data.as_slice());
    collect_readable(items).0
}

} // verus!

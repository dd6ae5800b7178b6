//! The parts of a DID document that locate an iroh node.

use vstd::prelude::*;

use crate::error::Error;
use crate::node::IrohAddr;
use crate::service::{parse_result_matches, parse_service_endpoint, IROH_SERVICE_TYPE, SERVICE_ID};
use crate::text::{chars_of, copy_chars, string_from_chars, texts_equal};

verus! {

/// A service entry of a DID document.
#[derive(Clone, Debug, PartialEq, Eq)]
pub struct Service {
    /// The service `id`, e.g. `#iroh` or `did:plc:xyz#iroh`.
    pub id: String,
    /// The service `type`, e.g. `IrohNode`.
    pub service_type: String,
    /// The `serviceEndpoint`.
    pub service_endpoint: String,
}

/// A DID document: its subject and its service entries.
#[derive(Clone, Debug, PartialEq, Eq)]
pub struct DidDocument {
    /// The DID the document describes.
    pub id: String,
    /// The service entries, if the document has a `service` member.
    pub service: Option<Vec<Service>>,
}

/// `s` without its leading run of `c`.
pub open spec fn trim_leading(s: Seq<char>, c: char) -> Seq<char>
    decreases s.len(),
{
    if s.len() > 0 && s[0] == c {
        trim_leading(s.drop_first(), c)
    } else {
        s
    }
}

/// The service entries of a document (none when it has no `service` member).
pub open spec fn doc_services(doc: DidDocument) -> Seq<Service> {
    match doc.service {
        Some(v) => v@,
        None => seq![],
    }
}

/// The fully qualified service id of the iroh entry of the document `did`: `<did>#iroh`.
pub open spec fn full_service_id(did: Seq<char>) -> Seq<char> {
    did + seq!['#'] + trim_leading(SERVICE_ID@, '#')
}

/// Whether a service entry is the iroh entry of a document with the given full id.
pub open spec fn is_iroh_service(svc: Service, full_id: Seq<char>) -> bool {
    (svc.id@ == SERVICE_ID@ || svc.id@ == full_id) && svc.service_type@ == IROH_SERVICE_TYPE@
}

/// The position of the first iroh entry among `services`.
pub open spec fn first_iroh_service(services: Seq<Service>, full_id: Seq<char>) -> Option<int>
    decreases services.len(),
{
    if services.len() == 0 {
        None
    } else if is_iroh_service(services[0], full_id) {
        Some(0)
    } else {
        match first_iroh_service(services.drop_first(), full_id) {
            Some(k) => Some(k + 1),
            None => None,
        }
    }
}

proof fn lemma_first_iroh_service(services: Seq<Service>, full_id: Seq<char>, k: int)
    requires
        0 <= k <= services.len(),
        forall|j: int| 0 <= j < k ==> !is_iroh_service(#[trigger] services[j], full_id),
    ensures
        k < services.len() && is_iroh_service(services[k], full_id) ==> first_iroh_service(
            services,
            full_id,
        ) == Some(k),
        k == services.len() ==> first_iroh_service(services, full_id) is None,
    decreases k,
{
    if k > 0 {
        assert forall|j: int| 0 <= j < k - 1 implies !is_iroh_service(
            #[trigger] services.drop_first()[j],
            full_id,
        ) by {
            assert(services.drop_first()[j] == services[j + 1]);
        }
        lemma_first_iroh_service(services.drop_first(), full_id, k - 1);
        assert(!is_iroh_service(services[0], full_id));
        if k < services.len() {
            assert(services.drop_first()[k - 1] == services[k]);
        }
    }
}

fn trim_leading_char(s: &str, c: char) -> (r: String)
    ensures
        r@ == trim_leading(s@, c),
{
    let chars = chars_of(s);
    let n = chars.len();
    let mut i: usize = 0;
    proof {
        assert(chars@.subrange(0, n as int) =~= s@);
    }
    while i < n && chars[i] == c
        invariant
            i <= n == chars@.len(),
            trim_leading(chars@.subrange(i as int, n as int), c) == trim_leading(s@, c),
        decreases n - i,
    {
        proof {
            assert(chars@.subrange(i as int, n as int).drop_first() =~= chars@.subrange(
                i + 1,
                n as int,
            ));
        }
        i = i + 1;
    }
    proof {
        if i < n {
            assert(chars@.subrange(i as int, n as int)[0] == chars@[i as int]);
        }
    }
    string_from_chars(copy_chars(&chars, i, n))
}

/// Extracts the iroh address from the `IrohNode` service entry in a DID document.
///
/// The entry is the first service whose id is `#iroh` or `<did>#iroh` and whose type is
/// `IrohNode`; `identity` names the resolved identity in the error when there is none.
pub fn extract_iroh_addr(doc: &DidDocument, identity: &str) -> (r: Result<IrohAddr, Error>)
    ensures
        match first_iroh_service(doc_services(*doc), full_service_id(doc.id@)) {
            None => r matches Err(Error::NoIrohService(name)) && name@ == identity@,
            Some(k) => parse_result_matches(doc_services(*doc)[k].service_endpoint@, r),
        },
{
    let mut full_id = doc.id.clone();
    full_id.append("#");
    full_id.append(trim_leading_char(SERVICE_ID, '#').as_str());
    proof {
        reveal_strlit("#");
        assert(full_id@ =~= full_service_id(doc.id@));
    }
    let ghost services = doc_services(*doc);
    let ghost fid = full_id@;
    match &doc.service {
        None => {
            proof {
                lemma_first_iroh_service(services, fid, 0);
            }
            Err(Error::NoIrohService(identity.to_owned()))
        },
        Some(list) => {
            let mut i: usize = 0;
            while i < list.len()
                invariant
                    services == list@,
                    services == doc_services(*doc),
                    fid == full_id@,
                    fid == full_service_id(doc.id@),
                    i <= list@.len(),
                    forall|j: int| 0 <= j < i ==> !is_iroh_service(#[trigger] services[j], fid),
                decreases list@.len() - i,
            {
                let svc = &list[i];
                let id_matches = texts_equal(svc.id.as_str(), SERVICE_ID) || texts_equal(
                    svc.id.as_str(),
                    full_id.as_str(),
                );
                if id_matches && texts_equal(svc.service_type.as_str(), IROH_SERVICE_TYPE) {
                    proof {
                        lemma_first_iroh_service(services, fid, i as int);
                    }
                    return parse_service_endpoint(svc.service_endpoint.as_str());
                }
                i = i + 1;
            }
            proof {
                lemma_first_iroh_service(services, fid, i as int);
            }
            Err(Error::NoIrohService(identity.to_owned()))
        },
    }
}

} // verus!

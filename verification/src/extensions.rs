//! Which protocol operations a deployment offers.

use crate::errors::UploadError;
use vstd::prelude::*;

verus! {

/// An optional behaviour of the protocol, and the core that is always there.
#[derive(Clone, Copy, Debug, PartialEq, Eq, Structural)]
pub enum Extensions {
    /// Status queries and appends.
    Core,
    /// Creating sessions.
    Creation,
    /// Sending the first bytes together with the creation request.
    CreationWithUpload,
    /// Creating a session whose length is declared later.
    DeferredLength,
    /// Assembling a final session from partial ones.
    Concatenation,
    /// Cancelling a session.
    Termination,
    /// Downloading the content of a complete session.
    Getting,
}

/// An inbound protocol operation.
#[derive(Clone, Copy, Debug, PartialEq, Eq, Structural)]
pub enum Operation {
    /// Create a session, perhaps with first bytes, perhaps of deferred length.
    Create { with_upload: bool, deferred: bool },
    /// Ask for the progress of a session.
    Head,
    /// Append bytes to a session.
    Patch,
    /// Declare the length of a session whose size was deferred.
    DeclareLength,
    /// Cancel a session.
    Delete,
    /// Download the content of a session.
    Get,
    /// Assemble a final session from parts.
    Concatenate,
}

/// Whether an operation needs the extension.
pub open spec fn needs(op: Operation, ext: Extensions) -> bool {
    match op {
        Operation::Create { with_upload, deferred } => {
            ||| ext == Extensions::Creation
            ||| with_upload && ext == Extensions::CreationWithUpload
            ||| deferred && ext == Extensions::DeferredLength
        },
        Operation::Head => ext == Extensions::Core,
        Operation::Patch => ext == Extensions::Core,
        Operation::DeclareLength => ext == Extensions::Core || ext == Extensions::DeferredLength,
        Operation::Delete => ext == Extensions::Termination,
        Operation::Get => ext == Extensions::Getting,
        Operation::Concatenate => ext == Extensions::Concatenation,
    }
}

/// Whether a deployment with these extensions offers the operation: every
/// extension that the operation needs is enabled.
pub open spec fn permitted(enabled: Set<Extensions>, op: Operation) -> bool {
    forall|ext: Extensions| needs(op, ext) ==> enabled.contains(ext)
}

/// The extensions in the order in which they are advertised.
pub open spec fn advertised_order() -> Seq<Extensions> {
    seq![
        Extensions::Core,
        Extensions::Creation,
        Extensions::CreationWithUpload,
        Extensions::DeferredLength,
        Extensions::Concatenation,
        Extensions::Termination,
        Extensions::Getting,
    ]
}

/// The configured extensions of a deployment. The core is always enabled,
/// whether the configuration lists it or not.
#[derive(Clone, Debug)]
pub struct Dispatcher {
    pub configured: Vec<Extensions>,
}

impl View for Dispatcher {
    type V = Set<Extensions>;

    open spec fn view(&self) -> Set<Extensions> {
        self.configured@.to_set().insert(Extensions::Core)
    }
}

impl Dispatcher {
    /// A deployment with the listed extensions.
    pub fn new(configured: Vec<Extensions>) -> (dispatcher: Dispatcher)
        ensures
            dispatcher@ == configured@.to_set().insert(Extensions::Core),
    {
        Dispatcher { configured }
    }

    /// Whether the extension is enabled.
    pub fn is_enabled(&self, ext: Extensions) -> (enabled: bool)
        ensures
            enabled == self@.contains(ext),
    {
        if ext == Extensions::Core {
            return true;
        }
        let mut i: usize = 0;
        while i < self.configured.len()
            invariant
                i <= self.configured.len(),
                forall|j: int| 0 <= j < i ==> self.configured@[j] != ext,
            decreases self.configured.len() - i,
        {
            if self.configured[i] == ext {
                assert(self.configured@.contains(ext));
                return true;
            }
            i = i + 1;
        }
        assert(!self.configured@.contains(ext));
        false
    }

    /// Lets an operation pass or refuses it with `ExtensionDisabled`: it
    /// passes exactly when every extension it needs is enabled.
    pub fn authorize(&self, op: Operation) -> (verdict: Result<(), UploadError>)
        ensures
            permitted(self@, op) ==> verdict == Ok::<(), UploadError>(()),
            !permitted(self@, op) ==> verdict == Err::<(), UploadError>(
                UploadError::ExtensionDisabled,
            ),
    {
        let allowed = match op {
            Operation::Create { with_upload, deferred } => {
                self.is_enabled(Extensions::Creation) && (!with_upload || self.is_enabled(
                    Extensions::CreationWithUpload,
                )) && (!deferred || self.is_enabled(Extensions::DeferredLength))
            },
            Operation::Head => true,
            Operation::Patch => true,
            Operation::DeclareLength => self.is_enabled(Extensions::DeferredLength),
            Operation::Delete => self.is_enabled(Extensions::Termination),
            Operation::Get => self.is_enabled(Extensions::Getting),
            Operation::Concatenate => self.is_enabled(Extensions::Concatenation),
        };
        if allowed {
            Ok(())
        } else {
            proof {
                match op {
                    Operation::Create { with_upload, deferred } => {
                        assert(needs(op, Extensions::Creation));
                        assert(with_upload ==> needs(op, Extensions::CreationWithUpload));
                        assert(deferred ==> needs(op, Extensions::DeferredLength));
                    },
                    Operation::DeclareLength => {
                        assert(needs(op, Extensions::DeferredLength));
                    },
                    Operation::Delete => {
                        assert(needs(op, Extensions::Termination));
                    },
                    Operation::Get => {
                        assert(needs(op, Extensions::Getting));
                    },
                    Operation::Concatenate => {
                        assert(needs(op, Extensions::Concatenation));
                    },
                    _ => {},
                }
            }
            Err(UploadError::ExtensionDisabled)
        }
    }

    /// The enabled extensions, each once, in the order of advertisement.
    pub fn capabilities(&self) -> (list: Vec<Extensions>)
        ensures
            list@ == advertised_order().filter(|ext: Extensions| self@.contains(ext)),
            forall|ext: Extensions| list@.contains(ext) <==> self@.contains(ext),
    {
        let all = [
            Extensions::Core,
            Extensions::Creation,
            Extensions::CreationWithUpload,
            Extensions::DeferredLength,
            Extensions::Concatenation,
            Extensions::Termination,
            Extensions::Getting,
        ];
        let ghost keep = |ext: Extensions| self@.contains(ext);
        let mut list: Vec<Extensions> = Vec::new();
        let mut i: usize = 0;
        assert(all@ =~= advertised_order());
        while i < 7
            invariant
                i <= 7,
                all@ == advertised_order(),
                keep == (|ext: Extensions| self@.contains(ext)),
                list@ == advertised_order().take(i as int).filter(keep),
            decreases 7 - i,
        {
            let ext = all[i];
            proof {
                let upto = advertised_order().take(i + 1);
                assert(upto.drop_last() =~= advertised_order().take(i as int));
                assert(upto.last() == ext);
                reveal(Seq::filter);
            }
            if self.is_enabled(ext) {
                list.push(ext);
            }
            i = i + 1;
        }
        proof {
            assert(advertised_order().take(7) =~= advertised_order());
            advertised_order().filter_lemma(keep);
            assert forall|ext: Extensions| self@.contains(ext) implies list@.contains(ext) by {
                let k: int = match ext {
                    Extensions::Core => 0,
                    Extensions::Creation => 1,
                    Extensions::CreationWithUpload => 2,
                    Extensions::DeferredLength => 3,
                    Extensions::Concatenation => 4,
                    Extensions::Termination => 5,
                    Extensions::Getting => 6,
                };
                assert(advertised_order()[k] == ext);
                assert(advertised_order().contains(ext));
            }
        }
        list
    }
}

} // verus!

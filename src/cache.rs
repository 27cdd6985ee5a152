//! Fingerprints of cached calendar documents.
use vstd::prelude::*;
use vstd::string::*;
use crate::request::Request;
use crate::text::{join_texts, joined, texts};

verus! {

#[verifier::external_type_specification]
#[verifier::external_body]
pub struct ExIoError(std::io::Error);

/// A failed cache operation, by the phase that failed.
#[derive(Debug)]
pub enum Error {
    Create(std::io::Error),
    Write(std::io::Error),
    Delete(std::io::Error),
}

/// What a cached document was compiled from.
#[derive(Clone, Copy, Debug, PartialEq, Eq, Structural)]
pub enum ArtifactKind {
    /// A semester schedule.
    Schedule,
    /// An exam period.
    ExamList,
}

pub open spec fn kind_tag(kind: ArtifactKind) -> Seq<char> {
    match kind {
        ArtifactKind::Schedule => "schedule"@,
        ArtifactKind::ExamList => "examlist"@,
    }
}

/// `<kind>-<department>-<form>-<group>-<subgroups joined by "_">[-t].ics`
pub open spec fn fingerprint(kind: ArtifactKind, req: Request) -> Seq<char> {
    kind_tag(kind) + "-"@ + req.department@ + "-"@ + req.form@ + "-"@ + req.group@ + "-"@ + joined(
        texts(req.subgroups@),
        "_"@,
    ) + (if req.translator {
        "-t"@
    } else {
        Seq::empty()
    }) + ".ics"@
}

impl Error {
    /// What failed.
    pub fn message(&self) -> (r: &'static str)
        ensures
            r@ == match self {
                Error::Create(_) => "failed to create a file"@,
                Error::Write(_) => "failed to write to a file"@,
                Error::Delete(_) => "failed to delete a file"@,
            },
    {
        match self {
            Error::Create(_) => "failed to create a file",
            Error::Write(_) => "failed to write to a file",
            Error::Delete(_) => "failed to delete a file",
        }
    }
}

/// Documents of different kinds never share a cache key, whatever the requests.
pub proof fn lemma_kinds_never_collide(k1: ArtifactKind, r1: Request, k2: ArtifactKind, r2: Request)
    requires
        k1 != k2,
    ensures
        fingerprint(k1, r1) != fingerprint(k2, r2),
{
    reveal_strlit("schedule");
    reveal_strlit("examlist");
    assert(fingerprint(k1, r1)[0] == kind_tag(k1)[0]);
    assert(fingerprint(k2, r2)[0] == kind_tag(k2)[0]);
}

/// The file name, and cache key, of the document of `kind` compiled for `req`.
pub fn gen_filename(kind: ArtifactKind, req: &Request) -> (r: String)
    ensures
        r@ == fingerprint(kind, *req),
{
    let mut r = match kind {
        ArtifactKind::Schedule => String::from_str("schedule"),
        ArtifactKind::ExamList => String::from_str("examlist"),
    };
    r.append("-");
    r.append(req.department.as_str());
    r.append("-");
    r.append(req.form.as_str());
    r.append("-");
    r.append(req.group.as_str());
    r.append("-");
    let subgroups = join_texts(&req.subgroups, "_");
    r.append(subgroups.as_str());
    if req.translator {
        r.append("-t");
    }
    r.append(".ics");
    proof {
        if !req.translator {
            assert(r@ =~= fingerprint(kind, *req));
        }
    }
    r
}

} // verus!

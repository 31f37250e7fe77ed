//! The document model: one base source and an ordered list of edits, and
//! the resolution of declarative sources into concrete byte sequences.

use vstd::prelude::*;
use vstd::string::StrSliceExecFns;
use vstd::utf8::encode_utf8;

use crate::errors::ResolutionError;

verus! {

/// The direction an edit looks in, relative to the position its `spot`
/// names.
#[derive(Debug, Clone, Copy, PartialEq, Eq, Structural)]
pub enum Direction {
    /// Before the spot: insertions land right before it, removals take
    /// bytes that precede it.
    Pre,
    /// After the spot: insertions land right after it, removals take
    /// bytes that follow it.
    Post,
}

/// A declarative description of a byte sequence. The first two variants
/// carry their bytes themselves; the rest name outside content and cannot
/// be resolved by this library.
#[derive(Debug, PartialEq)]
pub enum AssuoSource {
    /// A raw byte sequence, used unchanged.
    Bytes(Vec<u8>),
    /// A text, resolved to its UTF-8 encoding.
    Text(String),
    /// Bytes fetched from a URL.
    Url(String),
    /// Bytes read from a file on disk.
    File(String),
    /// The output of a nested patch document fetched from a URL.
    AssuoUrl(String),
    /// The output of a nested patch document read from disk.
    AssuoFile(String),
}

/// A single edit. Its `spot` is a byte offset in the original, unmodified
/// base, whatever earlier edits have done to the buffer.
#[derive(Debug, PartialEq)]
pub enum AssuoPatch<S = AssuoSource> {
    /// Insert the resolved source's bytes adjacent to `spot`.
    Insert { way: Direction, spot: usize, source: S },
    /// Delete `count` bytes adjacent to `spot`.
    Remove { way: Direction, spot: usize, count: usize },
}

/// A whole patch document: the base source and the ordered edit list.
#[derive(Debug, PartialEq)]
pub struct AssuoFile<S = AssuoSource> {
    /// The base that every `spot` offset addresses.
    pub source: S,
    /// The edits, applied in order; absent means no edits at all.
    pub patch: Option<Vec<AssuoPatch<AssuoSource>>>,
}

/// The mathematical shape of a source: what `AssuoSource` holds, with
/// sequences in place of vectors and strings.
pub ghost enum SourceModel {
    Bytes(Seq<u8>),
    Text(Seq<char>),
    Url(Seq<char>),
    File(Seq<char>),
    AssuoUrl(Seq<char>),
    AssuoFile(Seq<char>),
}

/// The mathematical shape of an edit whose source is still declarative.
pub ghost enum EditModel {
    Insert { way: Direction, spot: usize, source: SourceModel },
    Remove { way: Direction, spot: usize, count: usize },
}

/// The mathematical shape of an edit whose source has been resolved to
/// concrete bytes: the form the patch engine consumes.
pub ghost enum ResolvedEdit {
    Insert { way: Direction, spot: usize, bytes: Seq<u8> },
    Remove { way: Direction, spot: usize, count: usize },
}

/// The mathematical shape of a whole document.
pub ghost struct DocModel {
    pub source: SourceModel,
    pub patch: Option<Seq<EditModel>>,
}

/// What a source resolves to: its bytes for the two self-contained
/// variants, and a failure for the variants that would need outside input.
pub open spec fn resolved_bytes(s: SourceModel) -> Result<Seq<u8>, ResolutionError> {
    match s {
        SourceModel::Bytes(b) => Ok(b),
        SourceModel::Text(t) => Ok(encode_utf8(t)),
        _ => Err(ResolutionError::Unsupported),
    }
}

/// What resolving one edit yields: a remove is already concrete, an
/// insert resolves its source.
pub open spec fn resolve_edit_model(e: EditModel) -> Result<ResolvedEdit, ResolutionError> {
    match e {
        EditModel::Insert { way, spot, source } => match resolved_bytes(source) {
            Ok(b) => Ok(ResolvedEdit::Insert { way, spot, bytes: b }),
            Err(err) => Err(err),
        },
        EditModel::Remove { way, spot, count } => Ok(ResolvedEdit::Remove { way, spot, count }),
    }
}

impl AssuoSource {
    /// The data this source holds, as a mathematical value.
    pub open spec fn model(&self) -> SourceModel {
        match self {
            AssuoSource::Bytes(b) => SourceModel::Bytes(b@),
            AssuoSource::Text(t) => SourceModel::Text(t@),
            AssuoSource::Url(u) => SourceModel::Url(u@),
            AssuoSource::File(p) => SourceModel::File(p@),
            AssuoSource::AssuoUrl(u) => SourceModel::AssuoUrl(u@),
            AssuoSource::AssuoFile(p) => SourceModel::AssuoFile(p@),
        }
    }

    /// Turn this source into concrete bytes. `Bytes` hands its bytes back
    /// unchanged and `Text` yields the UTF-8 encoding of its text; every
    /// other variant needs an outside fetch or read and fails.
    pub fn resolve(self) -> (r: Result<Vec<u8>, ResolutionError>)
        ensures
            match r {
                Ok(v) => resolved_bytes(self.model()) == Ok::<Seq<u8>, ResolutionError>(v@),
                Err(e) => resolved_bytes(self.model()) == Err::<Seq<u8>, ResolutionError>(e),
            },
    {
        match self {
            AssuoSource::Bytes(bytes) => Ok(bytes),
            AssuoSource::Text(text) => Ok(text.as_str().as_bytes_vec()),
            AssuoSource::Url(_) => Err(ResolutionError::Unsupported),
            AssuoSource::File(_) => Err(ResolutionError::Unsupported),
            AssuoSource::AssuoUrl(_) => Err(ResolutionError::Unsupported),
            AssuoSource::AssuoFile(_) => Err(ResolutionError::Unsupported),
        }
    }
}

impl AssuoPatch<AssuoSource> {
    /// The data this edit holds, as a mathematical value.
    pub open spec fn model(&self) -> EditModel {
        match self {
            AssuoPatch::Insert { way, spot, source } => EditModel::Insert {
                way: *way,
                spot: *spot,
                source: source.model(),
            },
            AssuoPatch::Remove { way, spot, count } => EditModel::Remove {
                way: *way,
                spot: *spot,
                count: *count,
            },
        }
    }

    /// Resolve this edit's source, leaving direction, spot and count as
    /// they are.
    pub fn resolve(self) -> (r: Result<AssuoPatch<Vec<u8>>, ResolutionError>)
        ensures
            match r {
                Ok(p) => resolve_edit_model(self.model()) == Ok::<ResolvedEdit, ResolutionError>(
                    p.resolved_model(),
                ),
                Err(e) => resolve_edit_model(self.model()) == Err::<
                    ResolvedEdit,
                    ResolutionError,
                >(e),
            },
    {
        match self {
            AssuoPatch::Insert { way, spot, source } => match source.resolve() {
                Ok(bytes) => Ok(AssuoPatch::<Vec<u8>>::Insert { way, spot, source: bytes }),
                Err(e) => Err(e),
            },
            AssuoPatch::Remove { way, spot, count } => Ok(
                AssuoPatch::<Vec<u8>>::Remove { way, spot, count },
            ),
        }
    }
}

impl AssuoPatch<Vec<u8>> {
    /// The data this resolved edit holds, as a mathematical value.
    pub open spec fn resolved_model(&self) -> ResolvedEdit {
        match self {
            AssuoPatch::Insert { way, spot, source } => ResolvedEdit::Insert {
                way: *way,
                spot: *spot,
                bytes: source@,
            },
            AssuoPatch::Remove { way, spot, count } => ResolvedEdit::Remove {
                way: *way,
                spot: *spot,
                count: *count,
            },
        }
    }
}

impl AssuoFile<AssuoSource> {
    /// The data this document holds, as a mathematical value.
    pub open spec fn model(&self) -> DocModel {
        DocModel {
            source: self.source.model(),
            patch: match &self.patch {
                Some(ps) => Some(ps@.map_values(|p: AssuoPatch<AssuoSource>| p.model())),
                None => None,
            },
        }
    }

    /// Resolve the base source, leaving the edit list as it is.
    pub fn resolve(self) -> (r: Result<AssuoFile<Vec<u8>>, ResolutionError>)
        ensures
            match r {
                Ok(f) => resolved_bytes(self.source.model()) == Ok::<Seq<u8>, ResolutionError>(
                    f.source@,
                ) && f.patch == self.patch,
                Err(e) => resolved_bytes(self.source.model()) == Err::<Seq<u8>, ResolutionError>(
                    e,
                ),
            },
    {
        match self.source.resolve() {
            Ok(source) => Ok(AssuoFile::<Vec<u8>> { source, patch: self.patch }),
            Err(e) => Err(e),
        }
    }
}

/// Resolution is a pure function of a source's data: two sources that hold
/// the same bytes, or the same text, resolve to identical byte sequences,
/// however often either is resolved.
pub proof fn lemma_resolution_idempotent(a: AssuoSource, b: AssuoSource)
    requires
        a.model() == b.model(),
    ensures
        resolved_bytes(a.model()) == resolved_bytes(b.model()),
{
}

} // verus!

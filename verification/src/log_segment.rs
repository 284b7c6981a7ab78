//! The part of a table's log that describes one version of the table, and what it says of the
//! table's protocol and metadata.
use std::sync::Arc;
use vstd::prelude::*;
use vstd::std_specs::iter::IteratorSpec;

use crate::crc::Crc;
use crate::error::{DeltaResult, Error, ErrorModel};
use crate::path::ParsedLogPath;
use crate::table_configuration::{Metadata, MetadataModel, Protocol, ProtocolModel, Version};
use crate::text::texts;

verus! {

/// The action that holds a table's protocol.
pub const PROTOCOL_NAME: &'static str = "protocol";

/// The action that holds a table's metadata.
pub const METADATA_NAME: &'static str = "metaData";

/// The files of the log that describe a table at `end_version`.
#[derive(Debug, PartialEq, Eq)]
pub struct LogSegment {
    pub end_version: Version,
    /// The version of the checkpoint.
    pub checkpoint_version: Option<Version>,
    /// The commits after the checkpoint, by version.
    pub ascending_commit_files: Vec<ParsedLogPath>,
    /// The files of the checkpoint.
    pub checkpoint_parts: Vec<ParsedLogPath>,
}

/// The content of a [`LogSegment`].
pub struct LogSegmentModel {
    pub end_version: Version,
    pub checkpoint_version: Option<Version>,
    pub ascending_commit_files: Seq<ParsedLogPath>,
    pub checkpoint_parts: Seq<ParsedLogPath>,
}

impl View for LogSegment {
    type V = LogSegmentModel;

    open spec fn view(&self) -> LogSegmentModel {
        LogSegmentModel {
            end_version: self.end_version,
            checkpoint_version: self.checkpoint_version,
            ascending_commit_files: self.ascending_commit_files@,
            checkpoint_parts: self.checkpoint_parts@,
        }
    }
}

/// The files of versions after `version`, in order.
pub open spec fn files_after(files: Seq<ParsedLogPath>, version: Version) -> Seq<ParsedLogPath>
    decreases files.len(),
{
    if files.len() == 0 {
        Seq::empty()
    } else {
        let init = files_after(files.drop_last(), version);
        if files.last().version > version {
            init.push(files.last())
        } else {
            init
        }
    }
}

/// What a segment says of the table after `version`: its commits since then.
pub open spec fn after_version(segment: LogSegmentModel, version: Version) -> LogSegmentModel {
    LogSegmentModel {
        end_version: segment.end_version,
        checkpoint_version: None,
        ascending_commit_files: files_after(segment.ascending_commit_files, version),
        checkpoint_parts: Seq::empty(),
    }
}

fn clone_files(files: &Vec<ParsedLogPath>) -> (r: Vec<ParsedLogPath>)
    ensures
        r@ == files@,
{
    let mut r: Vec<ParsedLogPath> = Vec::new();
    let mut i: usize = 0;
    while i < files.len()
        invariant
            i <= files.len(),
            r@ == files@.take(i as int),
        decreases files.len() - i,
    {
        r.push(files[i].clone());
        i = i + 1;
        assert(r@ =~= files@.take(i as int));
    }
    assert(files@.take(i as int) =~= files@);
    r
}

impl Clone for LogSegment {
    fn clone(&self) -> (r: Self)
        ensures
            r@ == self@,
    {
        LogSegment {
            end_version: self.end_version,
            checkpoint_version: self.checkpoint_version,
            ascending_commit_files: clone_files(&self.ascending_commit_files),
            checkpoint_parts: clone_files(&self.checkpoint_parts),
        }
    }
}

// ---------------------------------------------------------------------------
// Replay
// ---------------------------------------------------------------------------
/// What a batch of actions holds: the metadata and the protocol found in it, or why they cannot be
/// read.
#[derive(Debug)]
pub struct ActionsBatch {
    pub metadata: DeltaResult<Option<Metadata>>,
    pub protocol: DeltaResult<Option<Protocol>>,
}

/// The content of an [`ActionsBatch`].
pub struct ActionsBatchModel {
    pub metadata: Result<Option<MetadataModel>, ErrorModel>,
    pub protocol: Result<Option<ProtocolModel>, ErrorModel>,
}

/// The content of optional metadata.
pub open spec fn metadata_option(m: Option<Metadata>) -> Option<MetadataModel> {
    match m {
        Some(m) => Some(m@),
        None => None,
    }
}

/// The content of an optional protocol.
pub open spec fn protocol_option(p: Option<Protocol>) -> Option<ProtocolModel> {
    match p {
        Some(p) => Some(p@),
        None => None,
    }
}

impl View for ActionsBatch {
    type V = ActionsBatchModel;

    open spec fn view(&self) -> ActionsBatchModel {
        ActionsBatchModel {
            metadata: match self.metadata {
                Ok(m) => Ok(metadata_option(m)),
                Err(e) => Err(e@),
            },
            protocol: match self.protocol {
                Ok(p) => Ok(protocol_option(p)),
                Err(e) => Err(e@),
            },
        }
    }
}

/// The content of a batch, or why it could not be read.
pub open spec fn batch_model(b: DeltaResult<ActionsBatch>) -> Result<ActionsBatchModel, ErrorModel> {
    match b {
        Ok(b) => Ok(b@),
        Err(e) => Err(e@),
    }
}

/// The contents of batches.
pub open spec fn batches_model(s: Seq<DeltaResult<ActionsBatch>>) -> Seq<
    Result<ActionsBatchModel, ErrorModel>,
> {
    s.map_values(|b: DeltaResult<ActionsBatch>| batch_model(b))
}

/// What is known of a table's metadata and protocol.
pub struct FoundModel {
    pub metadata: Option<MetadataModel>,
    pub protocol: Option<ProtocolModel>,
}

/// Whether nothing more is to be found.
pub open spec fn is_complete(found: FoundModel) -> bool {
    found.metadata is Some && found.protocol is Some
}

/// What is known after one more batch. It does not replace what is known already, and it is not
/// searched for that.
pub open spec fn replay_step(
    found: FoundModel,
    batch: Result<ActionsBatchModel, ErrorModel>,
) -> Result<FoundModel, ErrorModel> {
    match batch {
        Err(e) => Err(e),
        Ok(b) => match (if found.metadata is Some {
            Ok(found.metadata)
        } else {
            b.metadata
        }) {
            Err(e) => Err(e),
            Ok(metadata) => match (if found.protocol is Some {
                Ok(found.protocol)
            } else {
                b.protocol
            }) {
                Err(e) => Err(e),
                Ok(protocol) => Ok(FoundModel { metadata, protocol }),
            },
        },
    }
}

/// What is known after the batches of a log, newest first, beginning with `found`. The replay ends
/// with the first batch after which nothing more is to be found, or with the first failure.
pub open spec fn replay(
    batches: Seq<Result<ActionsBatchModel, ErrorModel>>,
    found: FoundModel,
) -> Result<FoundModel, ErrorModel>
    decreases batches.len(),
{
    if batches.len() == 0 {
        Ok(found)
    } else {
        match replay_step(found, batches[0]) {
            Err(e) => Err(e),
            Ok(next) => if is_complete(next) {
                Ok(next)
            } else {
                replay(batches.drop_first(), next)
            },
        }
    }
}

/// A table's metadata and protocol, as far as a replay has found them.
#[derive(Debug)]
pub struct ProtocolMetadataReplay {
    pub metadata: Option<Metadata>,
    pub protocol: Option<Protocol>,
}

impl View for ProtocolMetadataReplay {
    type V = FoundModel;

    open spec fn view(&self) -> FoundModel {
        FoundModel {
            metadata: metadata_option(self.metadata),
            protocol: protocol_option(self.protocol),
        }
    }
}

impl ProtocolMetadataReplay {
    /// Whether nothing more is to be found.
    pub fn is_complete(&self) -> (r: bool)
        ensures
            r == is_complete(self@),
    {
        self.metadata.is_some() && self.protocol.is_some()
    }

    /// Takes in one more batch.
    pub fn add(self, batch: DeltaResult<ActionsBatch>) -> (r: DeltaResult<Self>)
        ensures
            match r {
                Ok(next) => replay_step(self@, batch_model(batch)) == Ok::<FoundModel, ErrorModel>(
                    next@,
                ),
                Err(e) => replay_step(self@, batch_model(batch)) == Err::<FoundModel, ErrorModel>(
                    e@,
                ),
            },
    {
        let actions = match batch {
            Ok(actions) => actions,
            Err(e) => {
                return Err(e);
            },
        };
        let metadata = match self.metadata {
            Some(metadata) => Some(metadata),
            None => match actions.metadata {
                Ok(metadata) => metadata,
                Err(e) => {
                    return Err(e);
                },
            },
        };
        let protocol = match self.protocol {
            Some(protocol) => Some(protocol),
            None => match actions.protocol {
                Ok(protocol) => protocol,
                Err(e) => {
                    return Err(e);
                },
            },
        };
        Ok(ProtocolMetadataReplay { metadata, protocol })
    }
}

/// The content of what was found.
pub open spec fn found_model(found: (Option<Metadata>, Option<Protocol>)) -> FoundModel {
    FoundModel { metadata: metadata_option(found.0), protocol: protocol_option(found.1) }
}

/// Whether `r` hands out `expected`.
pub open spec fn gives(
    r: DeltaResult<(Option<Metadata>, Option<Protocol>)>,
    expected: Result<FoundModel, ErrorModel>,
) -> bool {
    match r {
        Ok(found) => expected == Ok::<FoundModel, ErrorModel>(found_model(found)),
        Err(e) => expected == Err::<FoundModel, ErrorModel>(e@),
    }
}

/// How many batches a replay takes, beginning with `found`: up to the first after which nothing more
/// is to be found, or the first failure, and otherwise all.
pub open spec fn batches_taken(
    batches: Seq<Result<ActionsBatchModel, ErrorModel>>,
    found: FoundModel,
) -> nat
    decreases batches.len(),
{
    if batches.len() == 0 {
        0
    } else {
        match replay_step(found, batches[0]) {
            Err(_) => 1,
            Ok(next) => if is_complete(next) {
                1
            } else {
                1 + batches_taken(batches.drop_first(), next)
            },
        }
    }
}

/// The batches that a replay leaves, beginning with `found`.
pub open spec fn batches_left(batches: Seq<DeltaResult<ActionsBatch>>, found: FoundModel) -> Seq<
    DeltaResult<ActionsBatch>,
> {
    batches.skip(batches_taken(batches_model(batches), found) as int)
}

/// Whether an iterator hands out what it announces and comes to an end.
pub open spec fn comes_to_an_end<I: Iterator>(batches: I) -> bool {
    batches.obeys_prophetic_iter_laws() && batches.decrease() is Some
}

proof fn lemma_skip_first(batches: Seq<DeltaResult<ActionsBatch>>, n: int)
    requires
        0 <= n < batches.len(),
    ensures
        batches.skip(n).drop_first() == batches.skip(n + 1),
        batches_model(batches.skip(n))[0] == batch_model(batches.skip(n)[0]),
        batches_model(batches.skip(n)).drop_first() == batches_model(batches.skip(n + 1)),
{
    assert(batches.skip(n).drop_first() =~= batches.skip(n + 1));
    assert(batches_model(batches.skip(n)).drop_first() =~= batches_model(batches.skip(n + 1)));
}

/// Searches the batches of a log, newest first, for metadata and protocol, beginning with what is
/// known already. It takes no batch more than it needs: those after the one that completes the
/// search, or that fails, stay in the iterator.
pub fn replay_batches<I: Iterator<Item = DeltaResult<ActionsBatch>>>(
    batches: &mut I,
    metadata: Option<Metadata>,
    protocol: Option<Protocol>,
) -> (r: DeltaResult<(Option<Metadata>, Option<Protocol>)>)
    requires
        comes_to_an_end(*old(batches)),
    ensures
        gives(
            r,
            replay(
                batches_model(<I as IteratorSpec>::remaining(old(batches))),
                found_model((metadata, protocol)),
            ),
        ),
        <I as IteratorSpec>::remaining(final(batches)) == batches_left(
            <I as IteratorSpec>::remaining(old(batches)),
            found_model((metadata, protocol)),
        ),
{
    let mut state = ProtocolMetadataReplay { metadata, protocol };
    let ghost known = state@;
    let ghost mut taken: nat = 0;
    assert(<I as IteratorSpec>::remaining(batches).skip(0) =~= <I as IteratorSpec>::remaining(
        batches,
    ));
    loop
        invariant
            comes_to_an_end(*batches),
            known == found_model((metadata, protocol)),
            replay(batches_model(<I as IteratorSpec>::remaining(batches)), state@) == replay(
                batches_model(<I as IteratorSpec>::remaining(old(batches))),
                known,
            ),
            taken + batches_taken(batches_model(<I as IteratorSpec>::remaining(batches)), state@)
                == batches_taken(
                batches_model(<I as IteratorSpec>::remaining(old(batches))),
                known,
            ),
            taken <= <I as IteratorSpec>::remaining(old(batches)).len(),
            <I as IteratorSpec>::remaining(batches) == <I as IteratorSpec>::remaining(
                old(batches),
            ).skip(taken as int),
        decreases <I as IteratorSpec>::decrease(batches)->0,
    {
        let batch = match batches.next() {
            Some(batch) => batch,
            None => {
                return Ok((state.metadata, state.protocol));
            },
        };
        proof {
            lemma_skip_first(<I as IteratorSpec>::remaining(old(batches)), taken as int);
            taken = taken + 1;
        }
        state =
        match state.add(batch) {
            Ok(next) => next,
            Err(e) => {
                return Err(e);
            },
        };
        if state.is_complete() {
            return Ok((state.metadata, state.protocol));
        }
    }
}

// ---------------------------------------------------------------------------
// Protocol and metadata of a segment
// ---------------------------------------------------------------------------
/// Nothing known yet.
pub open spec fn nothing_found() -> FoundModel {
    FoundModel { metadata: None, protocol: None }
}

/// What a checksum says of a table.
pub open spec fn found_in_crc(crc: Crc) -> FoundModel {
    FoundModel { metadata: Some(crc.metadata@), protocol: Some(crc.protocol@) }
}

/// What is known when `older` is completed by what is known of a later version.
pub open spec fn newer_first(newer: FoundModel, older: FoundModel) -> FoundModel {
    FoundModel {
        metadata: if newer.metadata is Some {
            newer.metadata
        } else {
            older.metadata
        },
        protocol: if newer.protocol is Some {
            newer.protocol
        } else {
            older.protocol
        },
    }
}

/// What has to be read of a segment to know the table's metadata and protocol: nothing, if a
/// checksum describes that version; what follows the checksum, if it describes an earlier one; and
/// otherwise everything.
pub open spec fn segment_to_read(segment: LogSegmentModel, crc: Option<Crc>) -> Option<
    LogSegmentModel,
> {
    match crc {
        Some(c) => if c.version == segment.end_version {
            None
        } else if c.version < segment.end_version {
            Some(after_version(segment, c.version))
        } else {
            Some(segment)
        },
        None => Some(segment),
    }
}

/// What is known after a replay when reading the log gives `reply`.
pub open spec fn replay_of(
    reply: Result<Seq<Result<ActionsBatchModel, ErrorModel>>, ErrorModel>,
    found: FoundModel,
) -> Result<FoundModel, ErrorModel> {
    match reply {
        Ok(batches) => replay(batches, found),
        Err(e) => Err(e),
    }
}

/// What is known of the metadata and protocol of a table at `end_version`, when reading what has to
/// be read gives `reply`.
pub open spec fn protocol_metadata(
    end_version: Version,
    crc: Option<Crc>,
    reply: Result<Seq<Result<ActionsBatchModel, ErrorModel>>, ErrorModel>,
) -> Result<FoundModel, ErrorModel> {
    let replayed = replay_of(reply, nothing_found());
    match crc {
        Some(c) if c.version == end_version => Ok(found_in_crc(c)),
        Some(c) if c.version < end_version => match replayed {
            Ok(found) => Ok(newer_first(found, found_in_crc(c))),
            Err(e) => Err(e),
        },
        _ => replayed,
    }
}

/// What keeps a table from being described: metadata or protocol that the log does not hold.
pub open spec fn missing(found: FoundModel) -> Option<ErrorModel> {
    match (found.metadata, found.protocol) {
        (Some(_), Some(_)) => None,
        (None, Some(_)) => Some(ErrorModel::MissingMetadata),
        (Some(_), None) => Some(ErrorModel::MissingProtocol),
        (None, None) => Some(ErrorModel::MissingMetadataAndProtocol),
    }
}

/// The checksum behind an optional reference.
pub open spec fn crc_option(crc: Option<&Arc<Crc>>) -> Option<Crc> {
    match crc {
        Some(c) => Some(**c),
        None => None,
    }
}

/// What was found, completed by what a checksum of an earlier version says.
pub fn complete_from_crc(
    found: (Option<Metadata>, Option<Protocol>),
    crc: &Crc,
) -> (r: (Option<Metadata>, Option<Protocol>))
    ensures
        found_model(r) == newer_first(found_model(found), found_in_crc(*crc)),
{
    let metadata = match found.0 {
        Some(metadata) => Some(metadata),
        None => Some(crc.metadata.clone()),
    };
    let protocol = match found.1 {
        Some(protocol) => Some(protocol),
        None => Some(crc.protocol.clone()),
    };
    (metadata, protocol)
}

/// What was found. Fails where something was not.
pub fn check_found(found: (Option<Metadata>, Option<Protocol>)) -> (r: DeltaResult<
    (Metadata, Protocol),
>)
    ensures
        checked(Ok(found_model(found)), r),
{
    match found {
        (Some(metadata), Some(protocol)) => Ok((metadata, protocol)),
        (None, Some(_)) => Err(Error::MissingMetadata),
        (Some(_), None) => Err(Error::MissingProtocol),
        (None, None) => Err(Error::MissingMetadataAndProtocol),
    }
}

/// The actions that a replay for metadata and protocol reads.
pub open spec fn replayed_actions() -> Seq<Seq<char>> {
    seq![PROTOCOL_NAME@, METADATA_NAME@]
}

/// Whether `read` can be called to read those actions of a segment.
pub open spec fn can_read<
    I: Iterator<Item = DeltaResult<ActionsBatch>>,
    F: FnOnce(&LogSegment, &Vec<String>) -> DeltaResult<I>,
>(segment: LogSegmentModel, read: F) -> bool {
    forall|s: &LogSegment, actions: &Vec<String>|
        s@ == segment && texts(actions@) == replayed_actions() ==> #[trigger] read.requires(
            (s, actions),
        )
}

/// Whether the batches that `read` gives when it reads those actions of a segment come to an end.
pub open spec fn reads_to_an_end<
    I: Iterator<Item = DeltaResult<ActionsBatch>>,
    F: FnOnce(&LogSegment, &Vec<String>) -> DeltaResult<I>,
>(segment: LogSegmentModel, read: F) -> bool {
    forall|s: &LogSegment, actions: &Vec<String>, batches: I|
        s@ == segment && texts(actions@) == replayed_actions() && #[trigger] read.ensures(
            (s, actions),
            Ok(batches),
        ) ==> comes_to_an_end(batches)
}

impl LogSegment {
    /// The commits after `crc_version`, without a checkpoint.
    pub fn segment_after_crc(&self, crc_version: Version) -> (r: LogSegment)
        ensures
            r@ == after_version(self@, crc_version),
    {
        let files = &self.ascending_commit_files;
        let mut kept: Vec<ParsedLogPath> = Vec::new();
        let mut i: usize = 0;
        while i < files.len()
            invariant
                i <= files.len(),
                kept@ == files_after(files@.take(i as int), crc_version),
            decreases files.len() - i,
        {
            assert(files@.take(i + 1).drop_last() =~= files@.take(i as int));
            if files[i].version > crc_version {
                kept.push(files[i].clone());
            }
            i = i + 1;
        }
        assert(files@.take(i as int) =~= files@);
        let none: Vec<ParsedLogPath> = Vec::new();
        assert(none@ =~= Seq::empty());
        LogSegment {
            end_version: self.end_version,
            checkpoint_version: None,
            ascending_commit_files: kept,
            checkpoint_parts: none,
        }
    }

    /// Reads the batches of the segment, newest first, projected to the actions that hold protocol
    /// and metadata. `read` reads the named actions of a segment.
    pub fn read_pm_batches<
        I: Iterator<Item = DeltaResult<ActionsBatch>>,
        F: FnOnce(&LogSegment, &Vec<String>) -> DeltaResult<I>,
    >(&self, read: F) -> (r: DeltaResult<I>)
        requires
            can_read(self@, read),
        ensures
            exists|actions: &Vec<String>|
                texts(actions@) == replayed_actions() && #[trigger] read.ensures((self, actions), r),
    {
        let mut actions: Vec<String> = Vec::new();
        actions.push(PROTOCOL_NAME.to_owned());
        actions.push(METADATA_NAME.to_owned());
        assert(texts(actions@) =~= replayed_actions());
        let r = read(self, &actions);
        assert(read.ensures((self, &actions), r));
        r
    }

    /// Searches the segment, newest first, for metadata and protocol, beginning with what is known
    /// already. `read` reads the named actions of a segment, newest first. The batches that come
    /// after the last one that is needed are not taken: the iterator is let go with them in it.
    pub fn replay_for_pm<
        I: Iterator<Item = DeltaResult<ActionsBatch>>,
        F: FnOnce(&LogSegment, &Vec<String>) -> DeltaResult<I>,
    >(&self, read: F, metadata: Option<Metadata>, protocol: Option<Protocol>) -> (r: DeltaResult<
        (Option<Metadata>, Option<Protocol>),
    >)
        requires
            can_read(self@, read),
            reads_to_an_end(self@, read),
        ensures
            exists|actions: &Vec<String>, reply: DeltaResult<I>|
                texts(actions@) == replayed_actions() && #[trigger] read.ensures(
                    (self, actions),
                    reply,
                ) && gives(
                    r,
                    replay_of(
                        match reply {
                            Ok(batches) => Ok(batches_model(<I as IteratorSpec>::remaining(&batches))),
                            Err(e) => Err(e@),
                        },
                        found_model((metadata, protocol)),
                    ),
                ) && (reply matches Ok(batches) ==> exists|rest: I| #[trigger]
                    has_resolved(rest) && <I as IteratorSpec>::remaining(&rest) == batches_left(
                        <I as IteratorSpec>::remaining(&batches),
                        found_model((metadata, protocol)),
                    )),
    {
        match self.read_pm_batches(read) {
            Ok(batches) => {
                let mut batches = batches;
                let r = replay_batches(&mut batches, metadata, protocol);
                assert(has_resolved(batches));
                r
            },
            Err(e) => Err(e),
        }
    }

    /// The latest protocol and metadata of the segment, as far as it has them. A checksum saves
    /// reading what it covers. `read` reads the named actions of a segment, newest first. No batch
    /// is taken that is not needed.
    pub fn read_protocol_metadata_opt<
        I: Iterator<Item = DeltaResult<ActionsBatch>>,
        F: FnOnce(&LogSegment, &Vec<String>) -> DeltaResult<I>,
    >(&self, read: F, crc: Option<&Arc<Crc>>) -> (r: DeltaResult<
        (Option<Metadata>, Option<Protocol>),
    >)
        requires
            segment_to_read(self@, crc_option(crc)) matches Some(segment) ==> can_read(segment, read)
                && reads_to_an_end(segment, read),
        ensures
            match segment_to_read(self@, crc_option(crc)) {
                None => r matches Ok(found) && found_model(found) == found_in_crc(**crc->0),
                Some(segment) => exists|
                    s: &LogSegment,
                    actions: &Vec<String>,
                    reply: DeltaResult<I>,
                |
                    s@ == segment && texts(actions@) == replayed_actions() && #[trigger] read.ensures(
                        (s, actions),
                        reply,
                    ) && gives(
                        r,
                        protocol_metadata(
                            self.end_version,
                            crc_option(crc),
                            match reply {
                                Ok(batches) => Ok(batches_model(<I as IteratorSpec>::remaining(&batches))),
                                Err(e) => Err(e@),
                            },
                        ),
                    ) && (reply matches Ok(batches) ==> exists|rest: I| #[trigger]
                        has_resolved(rest) && <I as IteratorSpec>::remaining(&rest) == batches_left(
                            <I as IteratorSpec>::remaining(&batches),
                            nothing_found(),
                        )),
            },
    {
        if let Some(c) = crc {
            if c.version == self.end_version {
                return Ok((Some(c.metadata.clone()), Some(c.protocol.clone())));
            }
            if c.version < self.end_version {
                let pruned = self.segment_after_crc(c.version);
                return match pruned.replay_for_pm(read, None, None) {
                    Ok(found) => Ok(complete_from_crc(found, c)),
                    Err(e) => Err(e),
                };
            }
        }
        self.replay_for_pm(read, None, None)
    }

    /// The latest protocol and metadata of the segment. Fails where it lacks one of them.
    pub fn read_protocol_metadata<
        I: Iterator<Item = DeltaResult<ActionsBatch>>,
        F: FnOnce(&LogSegment, &Vec<String>) -> DeltaResult<I>,
    >(&self, read: F, crc: Option<&Arc<Crc>>) -> (r: DeltaResult<(Metadata, Protocol)>)
        requires
            segment_to_read(self@, crc_option(crc)) matches Some(segment) ==> can_read(segment, read)
                && reads_to_an_end(segment, read),
        ensures
            match segment_to_read(self@, crc_option(crc)) {
                None => r matches Ok(found) && found.0@ == crc->0.metadata@ && found.1@
                    == crc->0.protocol@,
                Some(segment) => exists|
                    s: &LogSegment,
                    actions: &Vec<String>,
                    reply: DeltaResult<I>,
                |
                    s@ == segment && texts(actions@) == replayed_actions() && #[trigger] read.ensures(
                        (s, actions),
                        reply,
                    ) && checked(
                        protocol_metadata(
                            self.end_version,
                            crc_option(crc),
                            match reply {
                                Ok(batches) => Ok(batches_model(<I as IteratorSpec>::remaining(&batches))),
                                Err(e) => Err(e@),
                            },
                        ),
                        r,
                    ) && (reply matches Ok(batches) ==> exists|rest: I| #[trigger]
                        has_resolved(rest) && <I as IteratorSpec>::remaining(&rest) == batches_left(
                            <I as IteratorSpec>::remaining(&batches),
                            nothing_found(),
                        )),
            },
    {
        match self.read_protocol_metadata_opt(read, crc) {
            Ok(found) => check_found(found),
            Err(e) => Err(e),
        }
    }
}

/// Whether `r` hands out what was found, and fails where something was not.
pub open spec fn checked(
    found: Result<FoundModel, ErrorModel>,
    r: DeltaResult<(Metadata, Protocol)>,
) -> bool {
    match found {
        Ok(f) => match (missing(f), r) {
            (None, Ok(pair)) => f.metadata == Some(pair.0@) && f.protocol == Some(pair.1@),
            (Some(e), Err(error)) => error@ == e,
            _ => false,
        },
        Err(e) => r matches Err(error) && error@ == e,
    }
}

// ---------------------------------------------------------------------------
// Laws
// ---------------------------------------------------------------------------
/// The contents of a batch, or why it could not be read.
pub type BatchResult = Result<ActionsBatchModel, ErrorModel>;

/// A replay ends as soon as it can: once the batches `a` have given everything, or failed, what
/// follows them does not matter. So it does not have to be read.
pub proof fn law_replay_ends_early(a: Seq<BatchResult>, b: Seq<BatchResult>, found: FoundModel)
    requires
        a.len() > 0,
        replay(a, found) matches Ok(f) ==> is_complete(f),
    ensures
        replay(a + b, found) == replay(a, found),
    decreases a.len(),
{
    assert((a + b)[0] == a[0]);
    assert((a + b).drop_first() =~= a.drop_first() + b);
    if let Ok(next) = replay_step(found, a[0]) {
        if !is_complete(next) {
            assert(a.drop_first().len() > 0);
            law_replay_ends_early(a.drop_first(), b, next);
        }
    }
}

/// A replay takes the batches that it needs, and no other: those that it takes give what all of them
/// give, and before the last of them it has neither found everything nor failed.
pub proof fn law_replay_takes_what_it_needs(batches: Seq<BatchResult>, found: FoundModel)
    ensures
        batches_taken(batches, found) <= batches.len(),
        replay(batches.take(batches_taken(batches, found) as int), found) == replay(batches, found),
        forall|n: int|
            0 < n < batches_taken(batches, found) ==> #[trigger] still_searching(
                batches.take(n),
                found,
            ),
    decreases batches.len(),
{
    let taken = batches_taken(batches, found);
    if batches.len() > 0 {
        let rest = batches.drop_first();
        if let Ok(next) = replay_step(found, batches[0]) {
            if !is_complete(next) {
                law_replay_takes_what_it_needs(rest, next);
                assert(batches.take(taken as int).drop_first() =~= rest.take(taken - 1));
                assert forall|n: int| 0 < n < taken implies #[trigger] still_searching(
                    batches.take(n),
                    found,
                ) by {
                    assert(batches.take(n).drop_first() =~= rest.take(n - 1));
                    if n > 1 {
                        assert(still_searching(rest.take(n - 1), next));
                    }
                }
            }
        }
    }
}

/// Whether batches leave something to be found.
pub open spec fn still_searching(batches: Seq<BatchResult>, found: FoundModel) -> bool {
    replay(batches, found) matches Ok(f) && !is_complete(f)
}

/// A replay that has not found everything goes on where it is.
proof fn lemma_replay_goes_on(a: Seq<BatchResult>, b: Seq<BatchResult>, found: FoundModel)
    requires
        replay(a, found) matches Ok(f) && !is_complete(f),
    ensures
        replay(a + b, found) == replay(b, replay(a, found)->Ok_0),
    decreases a.len(),
{
    if a.len() == 0 {
        assert(a + b =~= b);
    } else {
        assert((a + b)[0] == a[0]);
        assert((a + b).drop_first() =~= a.drop_first() + b);
        lemma_replay_goes_on(a.drop_first(), b, replay_step(found, a[0])->Ok_0);
    }
}

/// What is known is never replaced.
proof fn lemma_replay_keeps_found(batches: Seq<BatchResult>, found: FoundModel)
    ensures
        replay(batches, found) matches Ok(f) ==> {
            &&& found.metadata is Some ==> f.metadata == found.metadata
            &&& found.protocol is Some ==> f.protocol == found.protocol
        },
    decreases batches.len(),
{
    if batches.len() > 0 {
        if let Ok(next) = replay_step(found, batches[0]) {
            lemma_replay_keeps_found(batches.drop_first(), next);
        }
    }
}

/// Whether batch `i` is the first that holds metadata, and holds `m`.
pub open spec fn first_metadata(batches: Seq<BatchResult>, i: int, m: MetadataModel) -> bool {
    &&& 0 <= i < batches.len()
    &&& batches[i] matches Ok(b) && b.metadata == Ok::<Option<MetadataModel>, ErrorModel>(Some(m))
    &&& forall|j: int| 0 <= j < i ==> holds_no_metadata(#[trigger] batches[j])
}

/// Whether a batch holds no metadata.
pub open spec fn holds_no_metadata(batch: BatchResult) -> bool {
    batch matches Ok(b) && b.metadata == Ok::<Option<MetadataModel>, ErrorModel>(None)
}

/// Whether batch `i` is the first that holds a protocol, and holds `p`.
pub open spec fn first_protocol(batches: Seq<BatchResult>, i: int, p: ProtocolModel) -> bool {
    &&& 0 <= i < batches.len()
    &&& batches[i] matches Ok(b) && b.protocol == Ok::<Option<ProtocolModel>, ErrorModel>(Some(p))
    &&& forall|j: int| 0 <= j < i ==> holds_no_protocol(#[trigger] batches[j])
}

/// Whether a batch holds no protocol.
pub open spec fn holds_no_protocol(batch: BatchResult) -> bool {
    batch matches Ok(b) && b.protocol == Ok::<Option<ProtocolModel>, ErrorModel>(None)
}

proof fn lemma_latest_metadata(batches: Seq<BatchResult>, found: FoundModel)
    requires
        found.metadata is None,
    ensures
        replay(batches, found) matches Ok(f) ==> match f.metadata {
            Some(m) => exists|i: int| first_metadata(batches, i, m),
            None => forall|i: int|
                0 <= i < batches.len() ==> holds_no_metadata(#[trigger] batches[i]),
        },
    decreases batches.len(),
{
    if batches.len() > 0 {
        if let Ok(next) = replay_step(found, batches[0]) {
            let rest = batches.drop_first();
            if let Some(m) = next.metadata {
                lemma_replay_keeps_found(rest, next);
                assert(first_metadata(batches, 0, m));
            } else {
                lemma_latest_metadata(rest, next);
                assert(holds_no_metadata(batches[0]));
                if let Ok(f) = replay(rest, next) {
                    assert forall|j: int|
                        1 <= j < batches.len() && holds_no_metadata(rest[j - 1]) implies
                        holds_no_metadata(#[trigger] batches[j]) by {
                        assert(rest[j - 1] == batches[j]);
                    }
                    if let Some(m) = f.metadata {
                        let i = choose|i: int| first_metadata(rest, i, m);
                        assert(rest[i] == batches[i + 1]);
                        assert forall|j: int| 0 <= j < i + 1 implies holds_no_metadata(
                            #[trigger] batches[j],
                        ) by {
                            if j > 0 {
                                assert(holds_no_metadata(rest[j - 1]));
                            }
                        }
                        assert(first_metadata(batches, i + 1, m));
                    }
                }
            }
        }
    }
}

proof fn lemma_latest_protocol(batches: Seq<BatchResult>, found: FoundModel)
    requires
        found.protocol is None,
    ensures
        replay(batches, found) matches Ok(f) ==> match f.protocol {
            Some(p) => exists|i: int| first_protocol(batches, i, p),
            None => forall|i: int|
                0 <= i < batches.len() ==> holds_no_protocol(#[trigger] batches[i]),
        },
    decreases batches.len(),
{
    if batches.len() > 0 {
        if let Ok(next) = replay_step(found, batches[0]) {
            let rest = batches.drop_first();
            if let Some(p) = next.protocol {
                lemma_replay_keeps_found(rest, next);
                assert(first_protocol(batches, 0, p));
            } else {
                lemma_latest_protocol(rest, next);
                assert(holds_no_protocol(batches[0]));
                if let Ok(f) = replay(rest, next) {
                    assert forall|j: int|
                        1 <= j < batches.len() && holds_no_protocol(rest[j - 1]) implies
                        holds_no_protocol(#[trigger] batches[j]) by {
                        assert(rest[j - 1] == batches[j]);
                    }
                    if let Some(p) = f.protocol {
                        let i = choose|i: int| first_protocol(rest, i, p);
                        assert(rest[i] == batches[i + 1]);
                        assert forall|j: int| 0 <= j < i + 1 implies holds_no_protocol(
                            #[trigger] batches[j],
                        ) by {
                            if j > 0 {
                                assert(holds_no_protocol(rest[j - 1]));
                            }
                        }
                        assert(first_protocol(batches, i + 1, p));
                    }
                }
            }
        }
    }
}

/// A replay finds the latest metadata and the latest protocol: those of the first batch, newest
/// first, that holds one. Where it finds none, no batch holds one.
pub proof fn law_replay_finds_the_latest(batches: Seq<BatchResult>)
    ensures
        replay(batches, nothing_found()) matches Ok(f) ==> {
            &&& match f.metadata {
                Some(m) => exists|i: int| first_metadata(batches, i, m),
                None => forall|i: int|
                    0 <= i < batches.len() ==> holds_no_metadata(#[trigger] batches[i]),
            }
            &&& match f.protocol {
                Some(p) => exists|i: int| first_protocol(batches, i, p),
                None => forall|i: int|
                    0 <= i < batches.len() ==> holds_no_protocol(#[trigger] batches[i]),
            }
        },
{
    lemma_latest_metadata(batches, nothing_found());
    lemma_latest_protocol(batches, nothing_found());
}

/// A table that a checksum describes, at its version or an earlier one, lacks neither metadata nor
/// protocol.
pub proof fn law_checksum_leaves_nothing_missing(
    end_version: Version,
    crc: Crc,
    reply: Result<Seq<BatchResult>, ErrorModel>,
)
    requires
        crc.version <= end_version,
    ensures
        protocol_metadata(end_version, Some(crc), reply) matches Ok(f) ==> missing(f) is None,
{
}

proof fn lemma_seeded_replay(
    batches: Seq<BatchResult>,
    seed: FoundModel,
    found: FoundModel,
)
    requires
        !is_complete(found),
        replay(batches, found) matches Ok(g) && is_complete(g),
    ensures
        replay(batches, newer_first(seed, found)) == Ok::<FoundModel, ErrorModel>(
            newer_first(seed, replay(batches, found)->Ok_0),
        ),
    decreases batches.len(),
{
    let seeded = newer_first(seed, found);
    let next = replay_step(found, batches[0])->Ok_0;
    let next_seeded = replay_step(seeded, batches[0])->Ok_0;
    assert(replay_step(seeded, batches[0]) is Ok);
    assert(next_seeded == newer_first(seed, next));
    lemma_replay_keeps_found(batches.drop_first(), next);
    if !is_complete(next) {
        lemma_seeded_replay(batches.drop_first(), seed, next);
    }
}

/// A checksum saves reading, and changes nothing: where it says what a replay of the log up to its
/// version finds, a replay of what follows it, completed by the checksum, finds what a replay of the
/// whole log finds.
pub proof fn law_checksum_changes_nothing(
    end_version: Version,
    crc: Crc,
    newer: Seq<BatchResult>,
    older: Seq<BatchResult>,
)
    requires
        crc.version < end_version,
        replay(older, nothing_found()) == Ok::<FoundModel, ErrorModel>(found_in_crc(crc)),
    ensures
        protocol_metadata(
            end_version,
            Some(crc),
            Ok::<Seq<BatchResult>, ErrorModel>(newer),
        ) == protocol_metadata(
            end_version,
            None,
            Ok::<Seq<BatchResult>, ErrorModel>(newer + older),
        ),
{
    match replay(newer, nothing_found()) {
        Ok(found) => {
            if is_complete(found) {
                law_replay_ends_early(newer, older, nothing_found());
            } else {
                lemma_replay_goes_on(newer, older, nothing_found());
                lemma_seeded_replay(older, found, nothing_found());
                assert(newer_first(found, nothing_found()) == found);
            }
        },
        Err(_) => {
            law_replay_ends_early(newer, older, nothing_found());
        },
    }
}

/// The part of a segment that follows a version holds exactly its commits after that version.
pub proof fn law_pruned_segment_keeps_later_commits(
    segment: LogSegmentModel,
    version: Version,
    file: ParsedLogPath,
)
    ensures
        after_version(segment, version).ascending_commit_files.contains(file) <==> (
        segment.ascending_commit_files.contains(file) && file.version > version),
        after_version(segment, version).checkpoint_parts.len() == 0,
{
    lemma_files_after(segment.ascending_commit_files, version, file);
}

proof fn lemma_files_after(files: Seq<ParsedLogPath>, version: Version, file: ParsedLogPath)
    ensures
        files_after(files, version).contains(file) <==> files.contains(file) && file.version
            > version,
    decreases files.len(),
{
    if files.len() > 0 {
        let init = files.drop_last();
        let kept = files_after(init, version);
        lemma_files_after(init, version, file);
        assert(files =~= init.push(files.last()));
        assert(files.contains(file) <==> init.contains(file) || files.last() == file) by {
            if init.contains(file) {
                let i = choose|i: int| 0 <= i < init.len() && init[i] == file;
                assert(files[i] == file);
            }
            assert(files[files.len() - 1] == files.last());
            if files.contains(file) {
                let i = choose|i: int| 0 <= i < files.len() && files[i] == file;
                if i < init.len() {
                    assert(init[i] == file);
                }
            }
        }
        let more = kept.push(files.last());
        assert(more.contains(file) <==> kept.contains(file) || files.last() == file) by {
            if kept.contains(file) {
                let i = choose|i: int| 0 <= i < kept.len() && kept[i] == file;
                assert(more[i] == file);
            }
            assert(more[more.len() - 1] == files.last());
        }
    }
}

/// Whether `kept` is what `positions` select of `files`, in the same order: every file of a version
/// after `version`, and no other.
pub open spec fn selects(
    files: Seq<ParsedLogPath>,
    version: Version,
    kept: Seq<ParsedLogPath>,
    positions: Seq<int>,
) -> bool {
    &&& positions.len() == kept.len()
    &&& forall|k: int|
        0 <= k < kept.len() ==> 0 <= #[trigger] positions[k] < files.len() && kept[k]
            == files[positions[k]] && kept[k].version > version
    &&& forall|k: int, l: int|
        0 <= k < l < positions.len() ==> #[trigger] positions[k] < #[trigger] positions[l]
    &&& forall|i: int|
        0 <= i < files.len() && (#[trigger] files[i]).version > version ==> positions.contains(i)
}

/// Whether files stand in ascending order of version.
pub open spec fn ascends(files: Seq<ParsedLogPath>) -> bool {
    forall|i: int, j: int|
        0 <= i < j < files.len() ==> (#[trigger] files[i]).version < (#[trigger] files[j]).version
}

/// The part of a segment that follows a version holds the commits after that version in the order in
/// which the segment holds them, each as often, and neither other commits nor a checkpoint. It
/// describes the table at the same version. Commits in ascending order stay in ascending order.
pub proof fn law_pruned_segment_keeps_the_order(segment: LogSegmentModel, version: Version)
    ensures
        exists|positions: Seq<int>|
            selects(
                segment.ascending_commit_files,
                version,
                after_version(segment, version).ascending_commit_files,
                positions,
            ),
        after_version(segment, version).end_version == segment.end_version,
        after_version(segment, version).checkpoint_version is None,
        after_version(segment, version).checkpoint_parts.len() == 0,
        ascends(segment.ascending_commit_files) ==> ascends(
            after_version(segment, version).ascending_commit_files,
        ),
{
    let files = segment.ascending_commit_files;
    let kept = after_version(segment, version).ascending_commit_files;
    let positions = lemma_later_files_are_selected(files, version);
    assert(selects(files, version, kept, positions));
    if ascends(files) {
        assert forall|k: int, l: int| 0 <= k < l < kept.len() implies (#[trigger] kept[k]).version < (
        #[trigger] kept[l]).version by {
            assert(positions[k] < positions[l]);
            assert(files[positions[k]].version < files[positions[l]].version);
        }
    }
}

proof fn lemma_later_files_are_selected(files: Seq<ParsedLogPath>, version: Version) -> (positions:
    Seq<int>)
    ensures
        selects(files, version, files_after(files, version), positions),
    decreases files.len(),
{
    if files.len() == 0 {
        Seq::empty()
    } else {
        let init = files.drop_last();
        let before = lemma_later_files_are_selected(init, version);
        let n = init.len() as int;
        let positions = if files.last().version > version {
            before.push(n)
        } else {
            before
        };
        let kept = files_after(files, version);
        assert forall|k: int| 0 <= k < kept.len() implies 0 <= #[trigger] positions[k] < files.len()
            && kept[k] == files[positions[k]] && kept[k].version > version by {
            if k < before.len() {
                assert(positions[k] == before[k]);
                assert(init[before[k]] == files[before[k]]);
            }
        }
        assert forall|i: int|
            0 <= i < files.len() && (#[trigger] files[i]).version > version implies positions.contains(
            i,
        ) by {
            if i < n {
                assert(init[i] == files[i]);
                assert(before.contains(i));
                let k = choose|k: int| 0 <= k < before.len() && before[k] == i;
                assert(positions[k] == i);
            } else {
                assert(positions[before.len() as int] == n);
            }
        }
        positions
    }
}

/// What reading a segment gives, newest first: its commits from the back, then its checkpoint.
/// `content` says what a file holds.
pub open spec fn newest_first(
    segment: LogSegmentModel,
    content: spec_fn(ParsedLogPath) -> BatchResult,
) -> Seq<BatchResult> {
    let commits = segment.ascending_commit_files;
    let parts = segment.checkpoint_parts;
    Seq::new(commits.len(), |i: int| content(commits[commits.len() - 1 - i])) + Seq::new(
        parts.len(),
        |i: int| content(parts[i]),
    )
}

/// Reading less for a checksum changes nothing: where a checksum says what the log says up to its
/// version, what is found with it in the part of the log that it leaves to be read is what is found
/// without it in the whole log. `n` is the number of commits up to the version of the checksum.
pub proof fn law_pruned_reading_finds_the_same(
    segment: LogSegmentModel,
    crc: Crc,
    n: int,
    content: spec_fn(ParsedLogPath) -> BatchResult,
)
    requires
        crc.version < segment.end_version,
        ascends(segment.ascending_commit_files),
        0 <= n <= segment.ascending_commit_files.len(),
        forall|i: int|
            0 <= i < segment.ascending_commit_files.len() ==> (i < n <==> (
            #[trigger] segment.ascending_commit_files[i]).version <= crc.version),
        replay(
            newest_first(
                LogSegmentModel {
                    ascending_commit_files: segment.ascending_commit_files.take(n),
                    ..segment
                },
                content,
            ),
            nothing_found(),
        ) == Ok::<FoundModel, ErrorModel>(
            FoundModel { metadata: Some(crc.metadata@), protocol: Some(crc.protocol@) },
        ),
    ensures
        segment_to_read(segment, Some(crc)) matches Some(rest) && protocol_metadata(
            segment.end_version,
            Some(crc),
            Ok::<Seq<BatchResult>, ErrorModel>(newest_first(rest, content)),
        ) == protocol_metadata(
            segment.end_version,
            None,
            Ok::<Seq<BatchResult>, ErrorModel>(newest_first(segment, content)),
        ),
{
    let files = segment.ascending_commit_files;
    let older = LogSegmentModel { ascending_commit_files: files.take(n), ..segment };
    let rest = after_version(segment, crc.version);
    lemma_later_files_are_the_rest(files, crc.version, n);
    assert(rest.ascending_commit_files == files.skip(n));
    assert(newest_first(segment, content) =~= newest_first(rest, content) + newest_first(
        older,
        content,
    ));
    law_checksum_changes_nothing(
        segment.end_version,
        crc,
        newest_first(rest, content),
        newest_first(older, content),
    );
}

proof fn lemma_later_files_are_the_rest(files: Seq<ParsedLogPath>, version: Version, n: int)
    requires
        0 <= n <= files.len(),
        forall|i: int|
            0 <= i < files.len() ==> (i < n <==> (#[trigger] files[i]).version <= version),
    ensures
        files_after(files, version) == files.skip(n),
    decreases files.len(),
{
    if files.len() > 0 {
        let init = files.drop_last();
        if n < files.len() {
            assert forall|i: int| 0 <= i < init.len() implies (i < n <==> (
            #[trigger] init[i]).version <= version) by {
                assert(init[i] == files[i]);
            }
            lemma_later_files_are_the_rest(init, version, n);
            assert(files[files.len() - 1].version > version);
            assert(files.skip(n) =~= init.skip(n).push(files.last()));
        } else {
            assert forall|i: int| 0 <= i < init.len() implies (i < n - 1 <==> (
            #[trigger] init[i]).version <= version) by {
                assert(init[i] == files[i]);
            }
            lemma_later_files_are_the_rest(init, version, n - 1);
            assert(files[files.len() - 1].version <= version);
            assert(init.skip(n - 1) =~= Seq::empty());
            assert(files.skip(n) =~= Seq::empty());
        }
    } else {
        assert(files.skip(n) =~= Seq::empty());
    }
}

/// What has to be read: nothing where a checksum describes the table at that very version, and
/// everything where there is none, or one of a later version only. A checksum of an earlier version
/// leaves what follows it.
pub proof fn law_checksum_decides_what_is_read(segment: LogSegmentModel, crc: Crc, file: ParsedLogPath)
    ensures
        segment_to_read(segment, None) == Some(segment),
        crc.version == segment.end_version <==> segment_to_read(segment, Some(crc)) is None,
        crc.version > segment.end_version ==> segment_to_read(segment, Some(crc)) == Some(segment),
        crc.version < segment.end_version ==> (segment_to_read(segment, Some(crc)) matches Some(
            rest,
        ) && rest.checkpoint_parts.len() == 0 && (rest.ascending_commit_files.contains(file)
            <==> segment.ascending_commit_files.contains(file) && file.version > crc.version)),
{
    law_pruned_segment_keeps_later_commits(segment, crc.version, file);
}

/// What is known with a checksum. One of the very version is all that is known, whatever the log
/// says. One of an earlier version counts where the commits after it say nothing: otherwise the
/// latest of them does. One of a later version does not count.
pub proof fn law_newer_commits_go_before_the_checksum(
    end_version: Version,
    crc: Crc,
    batches: Seq<BatchResult>,
    i: int,
    m: MetadataModel,
    p: ProtocolModel,
)
    ensures
        crc.version == end_version ==> (protocol_metadata(
            end_version,
            Some(crc),
            Ok::<Seq<BatchResult>, ErrorModel>(batches),
        ) matches Ok(f) && f.metadata == Some(crc.metadata@) && f.protocol == Some(crc.protocol@)),
        crc.version < end_version ==> (protocol_metadata(
            end_version,
            Some(crc),
            Ok::<Seq<BatchResult>, ErrorModel>(batches),
        ) matches Ok(f) ==> {
            &&& first_metadata(batches, i, m) ==> f.metadata == Some(m)
            &&& first_protocol(batches, i, p) ==> f.protocol == Some(p)
            &&& (forall|j: int| 0 <= j < batches.len() ==> holds_no_metadata(#[trigger] batches[j]))
                ==> f.metadata == Some(crc.metadata@)
            &&& (forall|j: int| 0 <= j < batches.len() ==> holds_no_protocol(#[trigger] batches[j]))
                ==> f.protocol == Some(crc.protocol@)
        }),
        crc.version > end_version ==> protocol_metadata(
            end_version,
            Some(crc),
            Ok::<Seq<BatchResult>, ErrorModel>(batches),
        ) == protocol_metadata(end_version, None, Ok::<Seq<BatchResult>, ErrorModel>(batches)),
{
    law_replay_finds_the_latest(batches);
    if let Ok(found) = replay(batches, nothing_found()) {
        if let Some(n) = found.metadata {
            let k = choose|k: int| first_metadata(batches, k, n);
            if first_metadata(batches, i, m) {
                assert(k == i) by {
                    if k < i {
                        assert(holds_no_metadata(batches[k]));
                    } else if i < k {
                        assert(holds_no_metadata(batches[i]));
                    }
                }
            }
        } else if first_metadata(batches, i, m) {
            assert(holds_no_metadata(batches[i]));
        }
        if let Some(n) = found.protocol {
            let k = choose|k: int| first_protocol(batches, k, n);
            if first_protocol(batches, i, p) {
                assert(k == i) by {
                    if k < i {
                        assert(holds_no_protocol(batches[k]));
                    } else if i < k {
                        assert(holds_no_protocol(batches[i]));
                    }
                }
            }
        } else if first_protocol(batches, i, p) {
            assert(holds_no_protocol(batches[i]));
        }
    }
}

/// Whether a batch, and what it holds, can be read.
pub open spec fn is_readable(batch: BatchResult) -> bool {
    batch matches Ok(b) && b.metadata is Ok && b.protocol is Ok
}

/// Whether `e` is why a batch, or something in it, cannot be read.
pub open spec fn fails_with(batch: BatchResult, e: ErrorModel) -> bool {
    match batch {
        Ok(b) => b.metadata == Err::<Option<MetadataModel>, ErrorModel>(e) || b.protocol == Err::<
            Option<ProtocolModel>,
            ErrorModel,
        >(e),
        Err(error) => error == e,
    }
}

/// A replay succeeds where every batch can be read. Where it fails, the failure is that of a batch,
/// and all batches before that one could be read.
pub proof fn law_replay_fails_only_with_a_batch(batches: Seq<BatchResult>, found: FoundModel)
    ensures
        (forall|i: int| 0 <= i < batches.len() ==> is_readable(#[trigger] batches[i])) ==> replay(
            batches,
            found,
        ) is Ok,
        replay(batches, found) matches Err(e) ==> exists|i: int|
            0 <= i < batches.len() && fails_with(#[trigger] batches[i], e) && forall|j: int|
                0 <= j < i ==> (#[trigger] batches[j]) is Ok,
    decreases batches.len(),
{
    if batches.len() > 0 {
        let rest = batches.drop_first();
        match replay_step(found, batches[0]) {
            Ok(next) => {
                law_replay_fails_only_with_a_batch(rest, next);
                assert forall|i: int|
                    0 <= i < rest.len() && is_readable(batches[i + 1]) implies is_readable(
                    #[trigger] rest[i],
                ) by {}
                if let Err(e) = replay(batches, found) {
                    let i = choose|i: int|
                        0 <= i < rest.len() && fails_with(#[trigger] rest[i], e) && forall|j: int|
                            0 <= j < i ==> (#[trigger] rest[j]) is Ok;
                    assert(batches[i + 1] == rest[i]);
                    assert forall|j: int| 0 <= j < i + 1 implies (#[trigger] batches[j]) is Ok by {
                        if j > 0 {
                            assert(rest[j - 1] is Ok);
                        }
                    }
                }
            },
            Err(e) => {
                assert(fails_with(batches[0], e));
            },
        }
    }
}

/// Metadata and protocol are handed out where both were found, and otherwise the error names what is
/// missing. A failure to read stays what it is.
pub proof fn law_missing_actions_are_named(
    found: Result<FoundModel, ErrorModel>,
    r: DeltaResult<(Metadata, Protocol)>,
)
    requires
        checked(found, r),
    ensures
        match found {
            Ok(f) => match (f.metadata, f.protocol) {
                (Some(m), Some(p)) => r matches Ok(pair) && pair.0@ == m && pair.1@ == p,
                (None, Some(_)) => r matches Err(e) && e@ is MissingMetadata,
                (Some(_), None) => r matches Err(e) && e@ is MissingProtocol,
                (None, None) => r matches Err(e) && e@ is MissingMetadataAndProtocol,
            },
            Err(e) => r matches Err(error) && error@ == e,
        },
{
}

/// A replay that begins with something known finds what is missing: the metadata of the first batch
/// that holds some, and so for the protocol. What is known stays, and is not searched for: it makes no
/// difference what batches hold of it, or whether that can be read.
pub proof fn law_replay_finds_what_is_missing(
    batches: Seq<BatchResult>,
    other: Seq<BatchResult>,
    found: FoundModel,
)
    ensures
        replay(batches, found) matches Ok(f) ==> {
            &&& found.metadata is Some ==> f.metadata == found.metadata
            &&& found.protocol is Some ==> f.protocol == found.protocol
            &&& found.metadata is None ==> match f.metadata {
                Some(m) => exists|i: int| first_metadata(batches, i, m),
                None => forall|i: int|
                    0 <= i < batches.len() ==> holds_no_metadata(#[trigger] batches[i]),
            }
            &&& found.protocol is None ==> match f.protocol {
                Some(p) => exists|i: int| first_protocol(batches, i, p),
                None => forall|i: int|
                    0 <= i < batches.len() ==> holds_no_protocol(#[trigger] batches[i]),
            }
        },
        differ_in_what_is_known(batches, other, found) ==> replay(batches, found) == replay(
            other,
            found,
        ),
    decreases batches.len(),
{
    lemma_replay_keeps_found(batches, found);
    if found.metadata is None {
        lemma_latest_metadata(batches, found);
    }
    if found.protocol is None {
        lemma_latest_protocol(batches, found);
    }
    if differ_in_what_is_known(batches, other, found) && batches.len() > 0 {
        assert(replay_step(found, batches[0]) == replay_step(found, other[0]));
        if let Ok(next) = replay_step(found, batches[0]) {
            let a = batches.drop_first();
            let b = other.drop_first();
            assert forall|i: int| 0 <= i < a.len() implies same_but_what_is_known(
                #[trigger] a[i],
                b[i],
                next,
            ) by {
                assert(same_but_what_is_known(batches[i + 1], other[i + 1], found));
            }
            law_replay_finds_what_is_missing(a, b, next);
        }
    }
}

/// Whether two batches hold the same of what is not known.
pub open spec fn same_but_what_is_known(a: BatchResult, b: BatchResult, found: FoundModel) -> bool {
    match (a, b) {
        (Ok(a), Ok(b)) => (found.metadata is None ==> a.metadata == b.metadata) && (
        found.protocol is None ==> a.protocol == b.protocol),
        (Err(a), Err(b)) => a == b,
        _ => false,
    }
}

/// Whether batches hold the same of what is not known, one by one.
pub open spec fn differ_in_what_is_known(
    a: Seq<BatchResult>,
    b: Seq<BatchResult>,
    found: FoundModel,
) -> bool {
    a.len() == b.len() && forall|i: int|
        0 <= i < a.len() ==> same_but_what_is_known(#[trigger] a[i], b[i], found)
}

/// A replay looks at one batch at least, if there is one, and at all of them if it does not find
/// everything and does not fail. What is left is what it has not looked at, in order.
pub proof fn law_replay_takes_enough(
    batches: Seq<BatchResult>,
    found: FoundModel,
    read: Seq<DeltaResult<ActionsBatch>>,
    i: int,
)
    ensures
        batches.len() > 0 ==> batches_taken(batches, found) >= 1,
        replay(batches, found) matches Ok(f) && !is_complete(f) ==> batches_taken(batches, found)
            == batches.len(),
        ({
            let taken = batches_taken(batches_model(read), found);
            let left = batches_left(read, found);
            &&& taken + left.len() == read.len()
            &&& 0 <= i < left.len() ==> left[i] == read[taken + i]
        }),
    decreases batches.len(),
{
    law_replay_takes_what_it_needs(batches_model(read), found);
    if batches.len() > 0 {
        if let Ok(next) = replay_step(found, batches[0]) {
            if !is_complete(next) {
                law_replay_takes_enough(batches.drop_first(), next, read, i);
            }
        }
    }
}

/// What is known after one more batch: what was known, and besides what the batch holds. It fails where
/// the batch could not be read, or what is looked for in it, metadata first.
pub proof fn law_one_more_batch(found: FoundModel, batch: BatchResult)
    ensures
        match batch {
            Err(e) => replay_step(found, batch) == Err::<FoundModel, ErrorModel>(e),
            Ok(b) => {
                let metadata_fails = found.metadata is None && b.metadata is Err;
                let protocol_fails = found.protocol is None && b.protocol is Err;
                &&& replay_step(found, batch) is Err <==> metadata_fails || protocol_fails
                &&& metadata_fails ==> replay_step(found, batch) == Err::<FoundModel, ErrorModel>(
                    b.metadata->Err_0,
                )
                &&& !metadata_fails && protocol_fails ==> replay_step(found, batch) == Err::<
                    FoundModel,
                    ErrorModel,
                >(b.protocol->Err_0)
                &&& replay_step(found, batch) matches Ok(f) ==> {
                    &&& found.metadata is Some ==> f.metadata == found.metadata
                    &&& found.metadata is None ==> Ok::<Option<MetadataModel>, ErrorModel>(f.metadata)
                        == b.metadata
                    &&& found.protocol is Some ==> f.protocol == found.protocol
                    &&& found.protocol is None ==> Ok::<Option<ProtocolModel>, ErrorModel>(f.protocol)
                        == b.protocol
                }
            },
        },
{
}

/// What was found is handed out as it is: metadata where it was found, and the protocol where it was. A
/// failure stays what it is.
pub proof fn law_what_was_found_is_handed_out(
    r: DeltaResult<(Option<Metadata>, Option<Protocol>)>,
    expected: Result<FoundModel, ErrorModel>,
)
    requires
        gives(r, expected),
    ensures
        match expected {
            Ok(f) => r matches Ok(found) && (match (f.metadata, found.0) {
                (Some(m), Some(metadata)) => metadata@ == m,
                (None, None) => true,
                _ => false,
            }) && (match (f.protocol, found.1) {
                (Some(p), Some(protocol)) => protocol@ == p,
                (None, None) => true,
                _ => false,
            }),
            Err(e) => r matches Err(error) && error@ == e,
        },
{
}

/// Segments with the same content have the same files in the same order, the same checkpoint, and
/// describe the table at the same version.
pub proof fn law_content_of_a_segment(a: LogSegment, b: LogSegment)
    requires
        a@ == b@,
    ensures
        a.end_version == b.end_version,
        a.checkpoint_version == b.checkpoint_version,
        a.ascending_commit_files@ == b.ascending_commit_files@,
        a.checkpoint_parts@ == b.checkpoint_parts@,
{
}

/// A log that cannot be read is a failure, and that one, unless a checksum describes the table at that
/// very version: then the log is not needed.
pub proof fn law_log_has_to_be_readable(
    end_version: Version,
    crc: Option<Crc>,
    e: ErrorModel,
    batches: Seq<BatchResult>,
)
    ensures
        ({
            let described = crc matches Some(c) && c.version == end_version;
            &&& !described ==> protocol_metadata(
                end_version,
                crc,
                Err::<Seq<BatchResult>, ErrorModel>(e),
            ) == Err::<FoundModel, ErrorModel>(e)
            &&& described ==> protocol_metadata(
                end_version,
                crc,
                Err::<Seq<BatchResult>, ErrorModel>(e),
            ) is Ok
            &&& !described && replay(batches, nothing_found()) is Err ==> protocol_metadata(
                end_version,
                crc,
                Ok::<Seq<BatchResult>, ErrorModel>(batches),
            ) == replay(batches, nothing_found())
            &&& crc is None ==> protocol_metadata(
                end_version,
                crc,
                Ok::<Seq<BatchResult>, ErrorModel>(batches),
            ) == replay(batches, nothing_found())
        }),
{
}

} // verus!

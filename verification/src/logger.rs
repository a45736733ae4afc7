//! The rotation and retention state machine.
//!
//! `PipeLogger` is the logger's decision core. It owns the size
//! accounting, the retention list and the rotation bookkeeping; the I/O
//! layer around it appends bytes to the active file, reports what
//! happened, and carries out the plans this core hands back. Ghost fields
//! model the bytes on disk — the active file's content, every rotated
//! snapshot, and the full appended stream — so the content round-trip
//! invariant is part of the type's well-formedness.

use vstd::prelude::*;
use vstd::string::{StrSliceExecFns, StringExecFns};

use crate::config::{PipeLoggerBuilder, PipeLoggerBuilderError, Tee, spec_config_ok};
use crate::name::{Timestamp, format_rotated_name, lex_leq, spec_rotated_name};
use crate::recover::{
    find_point_index, lemma_point_index_range, lex_sorted, point_index, recover_rotated_names,
    spec_recovered_names, views,
};
use crate::rotate_method::RotateMethod;

verus! {

/// The concatenation of a list of byte strings, in order.
pub open spec fn concat_all(ss: Seq<Seq<u8>>) -> Seq<u8>
    decreases ss.len(),
{
    if ss.len() == 0 {
        Seq::empty()
    } else {
        concat_all(ss.drop_last()) + ss.last()
    }
}

/// What one write call did to the logger.
#[derive(Debug, Clone, Copy, PartialEq, Eq, Structural)]
pub enum WriteStatus {
    /// The bytes were accounted; no rotation is due.
    NoRotation,
    /// Fewer bytes reached the file than were given: the caller must
    /// report an out-of-space failure, and no rotation happens.
    InsufficientSpace,
    /// The accounted size reached the threshold: the caller must obtain a
    /// fresh timestamp and rotate.
    RotationNeeded,
}

/// The empty-input gate of a write call: a call that carries no bytes is
/// a no-op — it reports no rotation and must change nothing, before any
/// console or file I/O runs.
pub fn is_empty_write(text: &str) -> (r: bool)
    ensures
        r == (text@.len() == 0),
{
    text.is_empty()
}

/// Whether a line write must still append its terminator after a write
/// with the given outcome: exactly when the write succeeded without
/// rotating. When the write itself rotated, the terminator is not written
/// separately — its accounting carries into the next call's content.
pub fn terminator_due(status: &WriteStatus) -> (r: bool)
    ensures
        r == (*status == WriteStatus::NoRotation),
{
    match status {
        WriteStatus::NoRotation => true,
        _ => false,
    }
}

/// Everything the I/O layer must do on disk for one rotation.
pub struct RotationPlan {
    /// The base name the active file's bytes are copied to, beside it.
    pub rotated_file_name: String,
    /// The name reported to the caller: the base name, or with the
    /// compression suffix when compression is configured — the compressed
    /// artifact may not exist yet when the caller sees it.
    pub returned_name: String,
    /// Whether to hand the rotated file to a detached compression task.
    pub compress: bool,
    /// Base names evicted from retention, oldest first: each is deleted
    /// from disk, in both its plain and compressed form, best-effort.
    pub evicted: Vec<String>,
}

/// PipeLogger stores, rotates and compresses logs: this core decides, the
/// I/O layer around it acts.
pub struct PipeLogger {
    pub rotate: Option<RotateMethod>,
    pub count: Option<usize>,
    pub file_name: String,
    pub file_name_point_index: usize,
    pub file_size: u64,
    pub rotated_log_file_names: Vec<String>,
    pub compress: bool,
    pub tee: Option<Tee>,
    pub last_rotated_time: i64,
    /// The bytes now in the active file.
    pub active_content: Ghost<Seq<u8>>,
    /// Every byte appended through this logger, in order.
    pub appended: Ghost<Seq<u8>>,
    /// The bytes the active file held when the logger was built.
    pub pre_existing: Ghost<Seq<u8>>,
    /// The content snapshot of every rotation performed, oldest first.
    pub rotated_contents: Ghost<Seq<Seq<u8>>>,
    /// How many rotated names the build-time directory scan recovered.
    pub recovered_count: Ghost<nat>,
}

impl PipeLogger {
    /// The active file's name up to its extension.
    pub open spec fn stem(self) -> Seq<char> {
        self.file_name@.take(self.file_name_point_index as int)
    }

    /// The active file's extension, dot included, or empty.
    pub open spec fn ext(self) -> Seq<char> {
        self.file_name@.skip(self.file_name_point_index as int)
    }

    /// Well-formedness: configured bounds hold, the name splits at its
    /// last dot, the size counter equals the active content's length, the
    /// rotated snapshots and the active content together reproduce the
    /// full stream, and retention never holds a configured count's worth
    /// of names once a rotation has run.
    pub open spec fn inv(self) -> bool {
        &&& (self.rotate matches Some(RotateMethod::FileSize(t)) ==> t >= 2)
        &&& (self.rotate is Some && self.count is Some ==> self.count->0 >= 1)
        &&& self.file_name_point_index as int == point_index(self.file_name@)
        &&& self.file_size as nat == self.active_content@.len()
        &&& concat_all(self.rotated_contents@) + self.active_content@ == self.pre_existing@
            + self.appended@
        &&& (self.count is None ==> self.rotated_log_file_names@.len() == self.recovered_count@
            + self.rotated_contents@.len())
        &&& (self.count is Some && self.rotated_contents@.len() > 0
            ==> self.rotated_log_file_names@.len() < self.count->0)
    }

    /// A write has pushed the accounted size to the configured threshold.
    pub open spec fn rotation_due(self) -> bool {
        self.rotate matches Some(RotateMethod::FileSize(t)) && self.file_size >= t
    }

    /// Create a new PipeLoggerBuilder.
    pub fn builder(log_path: String) -> (r: PipeLoggerBuilder)
        ensures
            r.rotate is None,
            r.count is None,
            r.log_path@ == log_path@,
            !r.compress,
            r.tee is None,
    {
        PipeLoggerBuilder::new(log_path)
    }

    /// Accounts for one append to the active file: `written` of the bytes
    /// of `buf` reached it. Says whether the caller must now rotate —
    /// exactly when a threshold is configured and the accounted size
    /// reaches it — or report that the device is out of space, exactly
    /// when not all bytes arrived; a short write never rotates.
    pub fn note_write(&mut self, buf: &[u8], written: usize) -> (r: WriteStatus)
        requires
            old(self).inv(),
            written <= buf@.len(),
            old(self).file_size + written <= u64::MAX,
        ensures
            final(self).inv(),
            *final(self) == (PipeLogger {
                file_size: final(self).file_size,
                active_content: final(self).active_content,
                appended: final(self).appended,
                ..*old(self)
            }),
            final(self).file_size == old(self).file_size + written,
            final(self).active_content@ == old(self).active_content@ + buf@.take(written as int),
            final(self).appended@ == old(self).appended@ + buf@.take(written as int),
            r == (if written != buf@.len() {
                WriteStatus::InsufficientSpace
            } else if final(self).rotation_due() {
                WriteStatus::RotationNeeded
            } else {
                WriteStatus::NoRotation
            }),
    {
        self.file_size = self.file_size + written as u64;
        self.active_content = Ghost(self.active_content@ + buf@.take(written as int));
        self.appended = Ghost(self.appended@ + buf@.take(written as int));
        proof {
            let rc = concat_all(self.rotated_contents@);
            let act = old(self).active_content@;
            let app = old(self).appended@;
            let pre = self.pre_existing@;
            let piece = buf@.take(written as int);
            assert(rc + (act + piece) =~= (rc + act) + piece);
            assert(pre + (app + piece) =~= (pre + app) + piece);
            assert(concat_all(self.rotated_contents@) + self.active_content@ == self.pre_existing@
                + self.appended@);
        }
        if written != buf.len() {
            WriteStatus::InsufficientSpace
        } else {
            match &self.rotate {
                Some(RotateMethod::FileSize(size)) => {
                    if self.file_size >= *size {
                        WriteStatus::RotationNeeded
                    } else {
                        WriteStatus::NoRotation
                    }
                },
                None => WriteStatus::NoRotation,
            }
        }
    }

    /// Rotates: derives the timestamped name, snapshots the active content
    /// under it, resets the size accounting, appends the name to the
    /// retention list and, when a count is configured, evicts the oldest
    /// names until fewer than the count remain. The caller copies the
    /// active file to the rotated name, truncates the active file, deletes
    /// the evicted names (plain and compressed forms, best-effort), and
    /// hands the rotated file to a compression task when the plan says so.
    pub fn perform_rotation(&mut self, now_millis: i64, ts: Timestamp) -> (plan: RotationPlan)
        requires
            old(self).inv(),
            old(self).rotation_due(),
            ts.valid(),
            now_millis != old(self).last_rotated_time,
        ensures
            final(self).inv(),
            plan.rotated_file_name@ == spec_rotated_name(old(self).stem(), ts, old(self).ext()),
            plan.compress == old(self).compress,
            plan.returned_name@ == (if old(self).compress {
                plan.rotated_file_name@ + seq!['.', 'x', 'z']
            } else {
                plan.rotated_file_name@
            }),
            final(self).file_size == 0,
            final(self).active_content@ == Seq::<u8>::empty(),
            final(self).rotated_contents@ == old(self).rotated_contents@.push(
                old(self).active_content@,
            ),
            final(self).appended == old(self).appended,
            final(self).pre_existing == old(self).pre_existing,
            final(self).recovered_count == old(self).recovered_count,
            final(self).last_rotated_time == now_millis,
            final(self).rotate == old(self).rotate,
            final(self).count == old(self).count,
            final(self).compress == old(self).compress,
            final(self).tee == old(self).tee,
            final(self).file_name == old(self).file_name,
            final(self).file_name_point_index == old(self).file_name_point_index,
            ({
                let pushed = views(old(self).rotated_log_file_names@).push(
                    plan.rotated_file_name@,
                );
                match old(self).count {
                    None => views(final(self).rotated_log_file_names@) == pushed
                        && plan.evicted@.len() == 0,
                    Some(c) => {
                        let k = if pushed.len() >= c {
                            pushed.len() - (c - 1)
                        } else {
                            0
                        };
                        views(final(self).rotated_log_file_names@) == pushed.skip(k) && views(
                            plan.evicted@,
                        ) == pushed.take(k)
                    },
                }
            }),
    {
        proof {
            lemma_point_index_range(self.file_name@);
        }
        let name_len = self.file_name.as_str().unicode_len();
        let stem = self.file_name.as_str().substring_char(0, self.file_name_point_index);
        let ext = self.file_name.as_str().substring_char(self.file_name_point_index, name_len);
        let rotated_file_name = format_rotated_name(stem, &ts, ext);
        let mut returned_name = rotated_file_name.clone();
        if self.compress {
            returned_name.append(".xz");
        }
        proof {
            reveal_strlit(".xz");
            assert(".xz"@ =~= seq!['.', 'x', 'z']);
        }
        self.rotated_log_file_names.push(rotated_file_name.clone());
        let ghost pushed = views(self.rotated_log_file_names@);
        proof {
            assert(pushed =~= views(old(self).rotated_log_file_names@).push(
                rotated_file_name@,
            ));
        }
        let mut evicted: Vec<String> = Vec::new();
        proof {
            assert(views(evicted@) =~= pushed.take(0));
            assert(views(self.rotated_log_file_names@) =~= pushed.skip(0));
        }
        if let Some(count) = self.count {
            while self.rotated_log_file_names.len() >= count
                invariant
                    count >= 1,
                    self.count == Some(count),
                    *self == (PipeLogger {
                        rotated_log_file_names: self.rotated_log_file_names,
                        ..*old(self)
                    }),
                    evicted@.len() <= pushed.len(),
                    self.rotated_log_file_names@.len() == pushed.len() - evicted@.len(),
                    views(self.rotated_log_file_names@) == pushed.skip(evicted@.len() as int),
                    views(evicted@) == pushed.take(evicted@.len() as int),
                    evicted@.len() == 0 || self.rotated_log_file_names@.len() + 1 >= count,
                decreases self.rotated_log_file_names@.len(),
            {
                let ghost k = evicted@.len() as int;
                let ghost names_before = self.rotated_log_file_names@;
                let dead = self.rotated_log_file_names.remove(0);
                evicted.push(dead);
                proof {
                    assert(views(names_before.remove(0)) =~= views(names_before).skip(1));
                    assert(pushed.skip(k).skip(1) =~= pushed.skip(k + 1));
                    assert(views(self.rotated_log_file_names@) =~= pushed.skip(k + 1));
                    assert(dead@ == pushed.skip(k)[0]);
                    assert(dead@ == pushed[k]);
                    assert(pushed.take(k + 1) =~= pushed.take(k).push(pushed[k]));
                    assert(views(evicted@) =~= pushed.take(k + 1));
                }
            }
        }
        self.file_size = 0;
        self.last_rotated_time = now_millis;
        self.rotated_contents = Ghost(self.rotated_contents@.push(self.active_content@));
        self.active_content = Ghost(Seq::empty());
        proof {
            let rc_old = old(self).rotated_contents@;
            let act = old(self).active_content@;
            assert(self.rotated_contents@.drop_last() =~= rc_old);
            assert(self.rotated_contents@.last() == act);
            assert(concat_all(self.rotated_contents@) == concat_all(rc_old) + act);
            assert((concat_all(rc_old) + act) + self.active_content@ =~= concat_all(rc_old) + act);
            assert(concat_all(self.rotated_contents@) + self.active_content@ == self.pre_existing@
                + self.appended@);
        }
        RotationPlan { rotated_file_name, returned_name, compress: self.compress, evicted }
    }
}

impl PipeLoggerBuilder {
    /// Assembles a ready logger from what the initializer found on disk:
    /// the active file's name, its current size, and the names in its
    /// directory. Fails exactly on the configurations `check_config`
    /// rejects, with the same error. The recovered retention list holds
    /// the base name of every directory entry that is a rotated form of
    /// the active file, sorted in rotation order.
    pub fn build(
        self,
        file_name: String,
        initial_file_size: u64,
        directory_listing: &Vec<String>,
    ) -> (r: Result<PipeLogger, PipeLoggerBuilderError>)
        ensures
            r is Ok <==> spec_config_ok(self),
            r matches Ok(lg) ==> {
                &&& lg.inv()
                &&& lg.rotate == self.rotate
                &&& lg.count == self.count
                &&& lg.compress == self.compress
                &&& lg.tee == self.tee
                &&& lg.file_name@ == file_name@
                &&& lg.file_name_point_index as int == point_index(file_name@)
                &&& lg.file_size == initial_file_size
                &&& lg.last_rotated_time == 0
                &&& views(lg.rotated_log_file_names@).to_multiset() == spec_recovered_names(
                    views(directory_listing@),
                    lg.stem(),
                    lg.ext(),
                ).to_multiset()
                &&& lex_sorted(views(lg.rotated_log_file_names@))
                &&& lg.recovered_count@ == lg.rotated_log_file_names@.len()
                &&& lg.active_content@.len() == initial_file_size
                &&& lg.pre_existing == lg.active_content
                &&& lg.appended@ == Seq::<u8>::empty()
                &&& lg.rotated_contents@ == Seq::<Seq<u8>>::empty()
            },
            r matches Err(e) ==> match e {
                PipeLoggerBuilderError::RotateFileSizeTooSmall => (self.rotate matches Some(
                    RotateMethod::FileSize(t),
                ) && t < 2),
                PipeLoggerBuilderError::CountTooSmall => (self.rotate matches Some(
                    RotateMethod::FileSize(t),
                ) && t >= 2) && (self.count matches Some(c) && c < 1),
                _ => false,
            },
    {
        let checked = self.check_config();
        if let Err(e) = checked {
            return Err(e);
        }
        let name_len = file_name.as_str().unicode_len();
        let p = find_point_index(file_name.as_str());
        let stem = file_name.as_str().substring_char(0, p);
        let ext = file_name.as_str().substring_char(p, name_len);
        let rotated_log_file_names = recover_rotated_names(directory_listing, stem, ext);
        let ghost initial: Seq<u8> = choose|s: Seq<u8>| s.len() == initial_file_size as nat;
        proof {
            assert(Seq::new(initial_file_size as nat, |i: int| 0u8).len() == initial_file_size
                as nat);
            assert(initial.len() == initial_file_size as nat);
        }
        let ghost recovered_len = rotated_log_file_names@.len();
        let logger = PipeLogger {
            rotate: self.rotate,
            count: self.count,
            file_name,
            file_name_point_index: p,
            file_size: initial_file_size,
            rotated_log_file_names,
            compress: self.compress,
            tee: self.tee,
            last_rotated_time: 0,
            active_content: Ghost(initial),
            appended: Ghost(Seq::empty()),
            pre_existing: Ghost(initial),
            rotated_contents: Ghost(Seq::empty()),
            recovered_count: Ghost(recovered_len),
        };
        proof {
            assert(concat_all(logger.rotated_contents@) + logger.active_content@ =~= logger
                .pre_existing@ + logger.appended@);
            assert(logger.stem() =~= stem@);
            assert(logger.ext() =~= ext@);
        }
        Ok(logger)
    }
}

/// Concatenating the content of every rotated file, oldest first, and then
/// the remaining active content reproduces the bytes the active file held
/// at build time followed by every byte ever appended through the logger.
pub proof fn lemma_stream_round_trip(lg: PipeLogger)
    requires
        lg.inv(),
    ensures
        concat_all(lg.rotated_contents@) + lg.active_content@ == lg.pre_existing@ + lg.appended@,
{
}

/// Without retention, the retention list grows by exactly one name per
/// rotation: its length is always the recovered names plus the rotations
/// performed.
pub proof fn lemma_unbounded_retention_counts_rotations(lg: PipeLogger)
    requires
        lg.inv(),
        lg.count is None,
    ensures
        lg.rotated_log_file_names@.len() == lg.recovered_count@ + lg.rotated_contents@.len(),
{
}

/// With a retention count configured, once any rotation has run the
/// retention list stays strictly below the count.
pub proof fn lemma_bounded_retention(lg: PipeLogger, c: usize)
    requires
        lg.inv(),
        lg.count == Some(c),
        lg.rotated_contents@.len() > 0,
    ensures
        lg.rotated_log_file_names@.len() < c,
{
}

/// The retention list stays sorted through a rotation: pushing a name
/// that sorts no earlier than every retained one — as a fresh rotation's
/// name does, by the naming invariant — and then evicting the oldest
/// entries leaves a sorted list.
pub proof fn lemma_retention_stays_sorted(names: Seq<Seq<char>>, x: Seq<char>, k: int)
    requires
        lex_sorted(names),
        forall|i: int| 0 <= i < names.len() ==> lex_leq(#[trigger] names[i], x),
        0 <= k <= names.len() + 1,
    ensures
        lex_sorted(names.push(x).skip(k)),
{
    let pushed = names.push(x);
    assert(lex_sorted(pushed)) by {
        assert(forall|i: int| 0 <= i < names.len() ==> pushed[i] == names[i]);
        assert(pushed[names.len() as int] == x);
    }
    let kept = pushed.skip(k);
    assert forall|i: int, j: int| 0 <= i < j < kept.len() implies lex_leq(
        #[trigger] kept[i],
        #[trigger] kept[j],
    ) by {
        assert(kept[i] == pushed[i + k]);
        assert(kept[j] == pushed[j + k]);
        assert(lex_leq(pushed[i + k], pushed[j + k]));
    }
}

} // verus!

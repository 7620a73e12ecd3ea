//! Unique ids for accounts: a timestamp, the ids of data center and
//! worker, and a counter, packed into one number.
//!
//! The generator does not read the clock.  Its caller does, and hands
//! over the milliseconds since the Unix epoch, or nothing where the clock
//! stands before the epoch.
use vstd::prelude::*;
use crate::text::{decimal, i64_to_string};
use crate::user::user_error::UserError;

verus! {

/// The millisecond from which timestamps count.
pub const INIT_EPOCH: i64 = 1673701152000;

/// The largest worker id.
pub const WORKER_ID_MAX: i64 = 31;

/// The largest data center id.
pub const DATA_CENTER_MAX: i64 = 31;

/// A generator of ids.
#[derive(Debug, PartialEq, Eq)]
pub struct Snowflake {
    last_time_stamp: i64,
    data_center_id: i64,
    worker_id: i64,
    sequence: i64,
}

/// The id that is packed from a timestamp, the two ids and the counter:
/// the timestamp moved up by 22 bits, the data center id by 17, the
/// worker id by 12, and the counter, joined bit by bit.
pub open spec fn packed(time: i64, data_center_id: i64, worker_id: i64, sequence: i64) -> i64 {
    (((time - INIT_EPOCH) as i64) << 22) | (data_center_id << 17) | (worker_id << 12) | sequence
}

/// The current time as the generator counts it, from what the clock said.
pub open spec fn timestamp_of(clock: Option<u128>) -> core::result::Result<i64, UserError> {
    match clock {
        None => Err(UserError::SystemTimeError),
        Some(millis) => if millis <= i64::MAX {
            Ok(millis as i64)
        } else {
            Err(UserError::TryFromIntError)
        },
    }
}

/// The current time as the generator counts it, from what the clock said.
pub fn timestamp(clock: Option<u128>) -> (r: core::result::Result<i64, UserError>)
    ensures
        r == timestamp_of(clock),
{
    match clock {
        None => Err(UserError::SystemTimeError),
        Some(millis) => if millis <= 0x7fff_ffff_ffff_ffff {
            Ok(millis as i64)
        } else {
            Err(UserError::TryFromIntError)
        },
    }
}

impl Snowflake {
    /// The clock never stood before its epoch when an id was made.
    #[verifier::type_invariant]
    spec fn inv(self) -> bool {
        self.last_time_stamp >= 0
    }

    /// The time of the last id.
    pub closed spec fn last_view(&self) -> i64 {
        self.last_time_stamp
    }

    /// The counter within the millisecond.
    pub closed spec fn sequence_view(&self) -> i64 {
        self.sequence
    }

    /// The id of the worker.
    pub closed spec fn worker_view(&self) -> i64 {
        self.worker_id
    }

    /// The id of the data center.
    pub closed spec fn data_center_view(&self) -> i64 {
        self.data_center_id
    }

    /// A generator for the given worker, given what the clock said.  The
    /// worker id has to lie between 0 and 31.
    pub fn new(worker_id: i64, data_center_id: i64, clock: Option<u128>) -> (r:
        core::result::Result<Snowflake, UserError>)
        ensures
            match r {
                Ok(s) => 0 <= worker_id <= WORKER_ID_MAX && timestamp_of(clock) == Ok::<
                    i64,
                    UserError,
                >(s.last_view()) && s.worker_view() == worker_id && s.data_center_view()
                    == data_center_id && s.sequence_view() == 0,
                Err(e) => if worker_id < 0 || worker_id > WORKER_ID_MAX {
                    e == UserError::WorkerIdLengthError
                } else {
                    timestamp_of(clock) == Err::<i64, UserError>(e)
                },
            },
    {
        if worker_id < 0 || worker_id > WORKER_ID_MAX {
            return Err(UserError::WorkerIdLengthError);
        }
        if worker_id < 0 || worker_id > DATA_CENTER_MAX {
            return Err(UserError::DataCenterLengthError);
        }
        match timestamp(clock) {
            Ok(time) => Ok(
                Snowflake { last_time_stamp: time, data_center_id, worker_id, sequence: 0 },
            ),
            Err(e) => Err(e),
        }
    }

    /// The next id at time `time`: the clock must not have gone back; in
    /// the millisecond of the last id the counter goes up by one, in a
    /// later one it starts again at 0.  Fails with `ClockBack` where the
    /// time lies before the last id's, or where the counter is exhausted.
    pub fn generate_at(&mut self, time: i64) -> (r: core::result::Result<String, UserError>)
        ensures
            final(self).worker_view() == old(self).worker_view(),
            final(self).data_center_view() == old(self).data_center_view(),
            match r {
                Ok(id) => {
                    &&& 0 <= old(self).worker_view() <= WORKER_ID_MAX
                    &&& time >= old(self).last_view()
                    &&& final(self).last_view() == time
                    &&& final(self).sequence_view() == (if time == old(self).last_view() {
                        (old(self).sequence_view() + 1) as i64
                    } else {
                        0
                    })
                    &&& id@ == decimal(
                        packed(
                            time,
                            final(self).data_center_view(),
                            final(self).worker_view(),
                            final(self).sequence_view(),
                        ),
                    )
                },
                Err(e) => *final(self) == *old(self) && (if old(self).worker_view() < 0 || old(self).worker_view() > WORKER_ID_MAX {
                    e == UserError::WorkerIdLengthError
                } else {
                    e == UserError::ClockBack && (time < old(self).last_view() || (time == old(self).last_view() && old(self).sequence_view() == i64::MAX))
                }),
            },
    {
        if self.worker_id < 0 || self.worker_id > WORKER_ID_MAX {
            return Err(UserError::WorkerIdLengthError);
        }
        if self.worker_id < 0 || self.worker_id > DATA_CENTER_MAX {
            return Err(UserError::DataCenterLengthError);
        }
        proof {
            use_type_invariant(&*self);
        }
        if time < self.last_time_stamp {
            return Err(UserError::ClockBack);
        }
        let sequence = if time == self.last_time_stamp {
            if self.sequence == 0x7fff_ffff_ffff_ffff {
                return Err(UserError::ClockBack);
            }
            self.sequence + 1
        } else {
            0
        };
        self.sequence = sequence;
        self.last_time_stamp = time;
        let id = ((time - INIT_EPOCH) << 22) | (self.data_center_id << 17) | (self.worker_id << 12)
            | self.sequence;
        Ok(i64_to_string(id))
    }

    /// The next id, given what the clock said.
    pub fn generate(&mut self, clock: Option<u128>) -> (r: core::result::Result<String, UserError>)
        ensures
            final(self).worker_view() == old(self).worker_view(),
            final(self).data_center_view() == old(self).data_center_view(),
            match timestamp_of(clock) {
                Err(e) => r == Err::<String, UserError>(e) && *final(self) == *old(self),
                Ok(time) => match r {
                    Ok(id) => {
                        &&& 0 <= old(self).worker_view() <= WORKER_ID_MAX
                        &&& time >= old(self).last_view()
                        &&& final(self).last_view() == time
                        &&& final(self).sequence_view() == (if time == old(self).last_view() {
                            (old(self).sequence_view() + 1) as i64
                        } else {
                            0
                        })
                        &&& id@ == decimal(
                            packed(
                                time,
                                final(self).data_center_view(),
                                final(self).worker_view(),
                                final(self).sequence_view(),
                            ),
                        )
                    },
                    Err(e) => *final(self) == *old(self) && (if old(self).worker_view() < 0
                        || old(self).worker_view() > WORKER_ID_MAX {
                        e == UserError::WorkerIdLengthError
                    } else {
                        e == UserError::ClockBack && (time < old(self).last_view() || (time
                            == old(self).last_view() && old(self).sequence_view() == i64::MAX))
                    }),
                },
            },
    {
        match timestamp(clock) {
            Ok(time) => self.generate_at(time),
            Err(e) => Err(e),
        }
    }
}

} // verus!

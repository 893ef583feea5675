//! Data transfer objects: what the front end reads from a login body and
//! what it writes back to a poller, with the outcome wire encoding applied.

use vstd::prelude::*;

use crate::messages::StatusReplyMessage;
use crate::messages::spec_wire_code;

verus! {

/// A login body: the user and the password it claims.
pub struct LoginRequest {
    pub user: String,
    pub password: String,
}

impl LoginRequest {
    pub fn get_user(&self) -> (r: &str)
        ensures
            r@ == self.user@,
    {
        self.user.as_str()
    }

    pub fn get_password(&self) -> (r: &str)
        ensures
            r@ == self.password@,
    {
        self.password.as_str()
    }
}

/// What a poller is answered with: whether the job has finished, and the
/// newly resolved outcomes as integer wire codes.
pub struct StatusReply {
    pub finished: bool,
    pub results: Vec<(String, i32)>,
}

impl StatusReply {
    pub fn new(finished: bool, results: Vec<(String, i32)>) -> (r: StatusReply)
        ensures
            r.finished == finished,
            r.results == results,
    {
        StatusReply { finished, results }
    }

    /// Encodes a drained engine reply for the wire: every outcome becomes
    /// its integer code, the URLs and their order unchanged.
    pub fn from_message(msg: StatusReplyMessage) -> (r: StatusReply)
        ensures
            r.finished == msg.finished,
            r.results@.len() == msg.results@.len(),
            forall|i: int|
                0 <= i < msg.results@.len()
                    ==> (#[trigger] r.results@[i]).0 == msg.results@[i].0
                        && r.results@[i].1 as int == spec_wire_code(msg.results@[i].1),
    {
        let finished = msg.is_finished();
        let results = msg.into_results();
        let mut encoded: Vec<(String, i32)> = Vec::new();
        let n = results.len();
        let mut i: usize = 0;
        while i < n
            invariant
                n == results@.len(),
                0 <= i <= n,
                encoded@.len() == i,
                forall|j: int|
                    0 <= j < i
                        ==> (#[trigger] encoded@[j]).0 == results@[j].0
                            && encoded@[j].1 as int == spec_wire_code(results@[j].1),
            decreases n - i,
        {
            let key = results[i].0.clone();
            let code = i32::from(results[i].1);
            encoded.push((key, code));
            i += 1;
        }
        StatusReply { finished, results: encoded }
    }
}

} // verus!

//! Per-identity session memory paths and line production: where the summary
//! and the day's transcript live, and the exact line appended per turn. The
//! file reads and writes themselves happen outside this library.

use vstd::prelude::*;

use crate::transcript::transcript_line_spec;

verus! {

/// Knows where one identity's files live under the logs directory.
pub struct ClientLogger {
    pub base_dir: String,
}

impl ClientLogger {
    /// The identity's directory under the logs directory.
    pub fn new(logs_dir: &str, identity: &str) -> (r: Self)
        ensures
            r.base_dir@ == logs_dir@ + "/"@ + identity@,
    {
        let mut base_dir = logs_dir.to_owned();
        base_dir.append("/");
        base_dir.append(identity);
        ClientLogger { base_dir }
    }

    /// The summary file's path.
    pub fn summary_path(&self) -> (r: String)
        ensures
            r@ == self.base_dir@ + "/summary.txt"@,
    {
        let mut p = self.base_dir.clone();
        p.append("/summary.txt");
        p
    }

    /// The transcript file's path for a given calendar day.
    pub open spec fn chat_log_path_spec(&self, date: Seq<char>) -> Seq<char> {
        self.base_dir@ + "/chat_"@ + date + ".log"@
    }

    /// The transcript file's path for the given date string.
    pub fn chat_log_path(&self, date: &str) -> (r: String)
        ensures
            r@ == self.chat_log_path_spec(date@),
    {
        let mut p = self.base_dir.clone();
        p.append("/chat_");
        p.append(date);
        p.append(".log");
        proof {
            assert(p@ =~= self.chat_log_path_spec(date@));
        }
        p
    }

    /// The transcript file's path for the current calendar day.
    pub fn chat_log_path_today(&self) -> (r: String)
        ensures
            exists|d: Seq<char>| r@ == self.chat_log_path_spec(d),
    {
        let date = crate::clock::today_string();
        let r = self.chat_log_path(date.as_str());
        proof {
            assert(r@ == self.chat_log_path_spec(date@));
        }
        r
    }

    /// Produces the transcript line for one turn, stamped with the current
    /// time of day, and the path of the file it belongs in.
    pub fn log_message(&self, role: &str, content: &str) -> (r: (String, String))
        ensures
            exists|d: Seq<char>| r.0@ == self.chat_log_path_spec(d),
            exists|t: Seq<char>|
                r.1@ == transcript_line_spec(t, role@, content@) && t.len() == 8 && forall|i: int|
                    0 <= i < t.len() ==> #[trigger] t[i] != ']' && t[i] != '\n',
    {
        let path = self.chat_log_path_today();
        let time = crate::clock::time_hms_string();
        let line = crate::transcript::transcript_line(time.as_str(), role, content);
        proof {
            assert(line@ == transcript_line_spec(time@, role@, content@));
            assert(forall|i: int| 0 <= i < time@.len() ==> #[trigger] time@[i] != ']' && time@[i]
                != '\n');
        }
        (path, line)
    }
}

} // verus!

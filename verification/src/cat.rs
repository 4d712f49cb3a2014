//! Line numbering for a cat-style reader: all lines, non-blank lines
//! only, or none.

use vstd::prelude::*;
use vstd::string::StrSliceExecFns;
use vstd::string::StringExecFns;

use crate::num::aligned_decimal;
use crate::num::right_aligned;

verus! {

/// The numbering configuration and input names of one run.
#[derive(Debug)]
pub struct Config {
    pub files: Vec<String>,
    pub number_lines: bool,
    pub number_nonblank_lines: bool,
}

/// A line prefixed by its number, right-aligned to six characters and
/// separated by a tab.
pub open spec fn numbered(n: nat, line: Seq<char>) -> Seq<char> {
    right_aligned(n, 6) + "\t"@ + line
}

impl Config {
    /// Renders one line: numbered when all lines are numbered; numbered
    /// with the bumped non-blank counter when only non-blank lines are and
    /// the line has text; blank or plain otherwise. Returns the rendered
    /// line and the new non-blank counter.
    pub fn render_line(&self, line: &str, line_num: usize, nonblank_num: usize) -> (r: (
        String,
        usize,
    ))
        requires
            line_num < usize::MAX,
            nonblank_num < usize::MAX,
        ensures
            self.number_lines ==> r.0@ == numbered((line_num + 1) as nat, line@) && r.1
                == nonblank_num,
            !self.number_lines && self.number_nonblank_lines && line@.len() == 0 ==> r.0@
                == Seq::<char>::empty() && r.1 == nonblank_num,
            !self.number_lines && self.number_nonblank_lines && line@.len() > 0 ==> r.0@
                == numbered((nonblank_num + 1) as nat, line@) && r.1 == nonblank_num + 1,
            !self.number_lines && !self.number_nonblank_lines ==> r.0@ == line@ && r.1
                == nonblank_num,
    {
        if self.number_lines {
            let s = aligned_decimal(line_num + 1, 6).concat("\t").concat(line);
            proof {
                assert(s@ =~= numbered((line_num + 1) as nat, line@));
            }
            (s, nonblank_num)
        } else if self.number_nonblank_lines {
            if line.is_empty() {
                (String::new(), nonblank_num)
            } else {
                let s = aligned_decimal(nonblank_num + 1, 6).concat("\t").concat(line);
                proof {
                    assert(s@ =~= numbered((nonblank_num + 1) as nat, line@));
                }
                (s, nonblank_num + 1)
            }
        } else {
            (line.to_owned(), nonblank_num)
        }
    }
}

} // verus!

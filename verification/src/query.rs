//! The query parameters of the API and the values each view reads from
//! them: defaults, bounds and groupings.

use vstd::prelude::*;
use crate::normaliser::{clamp_u64, clamp_usize, clamped_param, group_by_key, normalize_group_by, opt_view};
use crate::text::{str_to_lowercase, to_owned_string, trim, trim_str, unicode_lowercase};

verus! {

/// The view of an optional owned string.
pub open spec fn param(v: Option<String>) -> Option<Seq<char>> {
    match v {
        Some(s) => Some(s@),
        None => None,
    }
}

fn as_param(v: &Option<String>) -> (r: Option<&str>)
    ensures
        opt_view(r) == param(*v),
{
    match v {
        Some(s) => Some(s.as_str()),
        None => None,
    }
}

fn text_or(v: &Option<String>, fallback: &str) -> (r: String)
    ensures
        r@ == match param(*v) {
            Some(s) => s,
            None => fallback@,
        },
{
    match v {
        Some(s) => to_owned_string(s.as_str()),
        None => to_owned_string(fallback),
    }
}

/// The largest offset a list view accepts.
pub const MAX_OFFSET: usize = 1_000_000;

/// `?source=`.
pub struct SourceQuery {
    pub source: Option<String>,
}

impl SourceQuery {
    /// The requested source; `auto` by default.
    pub fn source(&self) -> (r: String)
        ensures
            r@ == match param(self.source) {
                Some(s) => s,
                None => "auto"@,
            },
    {
        text_or(&self.source, "auto")
    }
}

/// `?days=&offset=&limit=`.
pub struct DaysQuery {
    pub days: Option<String>,
    pub offset: Option<String>,
    pub limit: Option<String>,
}

impl DaysQuery {
    /// The window of the history of one address: 7 days by default, 1 to 180.
    pub fn history_days(&self) -> (r: u64)
        ensures
            r as nat == clamped_param(param(self.days), 7, 1, 180, u64::MAX as nat),
    {
        clamp_u64(as_param(&self.days), 7, 1, 180)
    }

    /// The window of the protection view: 1 day by default, 1 to 7.
    pub fn protection_days(&self) -> (r: u64)
        ensures
            r as nat == clamped_param(param(self.days), 1, 1, 7, u64::MAX as nat),
    {
        clamp_u64(as_param(&self.days), 1, 1, 7)
    }

    /// The window of the access log summary: 1 day by default, 1 to the
    /// retention (at least 1).
    pub fn access_log_days(&self, retention_days: u64) -> (r: u64)
        ensures
            r as nat == clamped_param(
                param(self.days),
                1,
                1,
                if retention_days < 1 {
                    1
                } else {
                    retention_days as nat
                },
                u64::MAX as nat,
            ),
    {
        let hi = if retention_days < 1 {
            1
        } else {
            retention_days
        };
        clamp_u64(as_param(&self.days), 1, 1, hi)
    }

    /// The offset of a page: 0 by default, at most `MAX_OFFSET`.
    pub fn offset(&self) -> (r: usize)
        ensures
            r as nat == clamped_param(param(self.offset), 0, 0, MAX_OFFSET as nat, usize::MAX as nat),
    {
        clamp_usize(as_param(&self.offset), 0, 0, MAX_OFFSET)
    }

    /// The page size of the history of one address: 50 by default, 1 to 200.
    pub fn history_limit(&self) -> (r: usize)
        ensures
            r as nat == clamped_param(param(self.limit), 50, 1, 200, usize::MAX as nat),
    {
        clamp_usize(as_param(&self.limit), 50, 1, 200)
    }
}

/// `?days=&groupBy=&offset=&limit=` of the history view.
pub struct HistoryQuery {
    pub days: Option<String>,
    pub group_by: Option<String>,
    pub offset: Option<String>,
    pub limit: Option<String>,
}

impl HistoryQuery {
    /// 7 days by default, 1 to 180.
    pub fn days(&self) -> (r: u64)
        ensures
            r as nat == clamped_param(param(self.days), 7, 1, 180, u64::MAX as nat),
    {
        clamp_u64(as_param(&self.days), 7, 1, 180)
    }

    /// The grouping, `cidr24` by default.
    pub fn group_by(&self) -> (r: String)
        ensures
            r@ == group_by_key(param(self.group_by)),
    {
        normalize_group_by(as_param(&self.group_by))
    }

    /// 0 by default, at most `MAX_OFFSET`.
    pub fn offset(&self) -> (r: usize)
        ensures
            r as nat == clamped_param(param(self.offset), 0, 0, MAX_OFFSET as nat, usize::MAX as nat),
    {
        clamp_usize(as_param(&self.offset), 0, 0, MAX_OFFSET)
    }

    /// 80 by default, 1 to 200.
    pub fn limit(&self) -> (r: usize)
        ensures
            r as nat == clamped_param(param(self.limit), 80, 1, 200, usize::MAX as nat),
    {
        clamp_usize(as_param(&self.limit), 80, 1, 200)
    }
}

/// `?days=&groupBy=&label=&offset=&limit=` of one history group.
pub struct GroupQuery {
    pub days: Option<String>,
    pub group_by: Option<String>,
    pub label: Option<String>,
    pub offset: Option<String>,
    pub limit: Option<String>,
}

impl GroupQuery {
    /// 7 days by default, 1 to 180.
    pub fn days(&self) -> (r: u64)
        ensures
            r as nat == clamped_param(param(self.days), 7, 1, 180, u64::MAX as nat),
    {
        clamp_u64(as_param(&self.days), 7, 1, 180)
    }

    /// The grouping, `cidr24` by default.
    pub fn group_by(&self) -> (r: String)
        ensures
            r@ == group_by_key(param(self.group_by)),
    {
        normalize_group_by(as_param(&self.group_by))
    }

    /// The group's label, empty by default.
    pub fn label(&self) -> (r: String)
        ensures
            r@ == match param(self.label) {
                Some(s) => s,
                None => Seq::empty(),
            },
    {
        proof {
            reveal_strlit("");
            assert(""@ =~= Seq::<char>::empty());
        }
        text_or(&self.label, "")
    }

    /// 0 by default, at most `MAX_OFFSET`.
    pub fn offset(&self) -> (r: usize)
        ensures
            r as nat == clamped_param(param(self.offset), 0, 0, MAX_OFFSET as nat, usize::MAX as nat),
    {
        clamp_usize(as_param(&self.offset), 0, 0, MAX_OFFSET)
    }

    /// 80 by default, 1 to 200.
    pub fn limit(&self) -> (r: usize)
        ensures
            r as nat == clamped_param(param(self.limit), 80, 1, 200, usize::MAX as nat),
    {
        clamp_usize(as_param(&self.limit), 80, 1, 200)
    }
}

/// `?search=&sort=&direction=&offset=&limit=` of the Decisions view.
pub struct DecisionsQuery {
    pub search: Option<String>,
    pub sort: Option<String>,
    pub direction: Option<String>,
    pub offset: Option<String>,
    pub limit: Option<String>,
}

impl DecisionsQuery {
    /// The search, trimmed and lower-cased; empty by default.
    pub fn search(&self) -> (r: String)
        ensures
            r@ == unicode_lowercase(
                trim(
                    match param(self.search) {
                        Some(s) => s,
                        None => Seq::empty(),
                    },
                ),
            ),
    {
        proof {
            reveal_strlit("");
            assert(""@ =~= Seq::<char>::empty());
        }
        let s = text_or(&self.search, "");
        let t = trim_str(s.as_str());
        str_to_lowercase(t.as_str())
    }

    /// The sort key, empty (no sorting) by default.
    pub fn sort(&self) -> (r: String)
        ensures
            r@ == match param(self.sort) {
                Some(s) => s,
                None => Seq::empty(),
            },
    {
        proof {
            reveal_strlit("");
            assert(""@ =~= Seq::<char>::empty());
        }
        text_or(&self.sort, "")
    }

    /// Descending only for `desc`.
    pub fn descending(&self) -> (r: bool)
        ensures
            r == (param(self.direction) == Some("desc"@)),
    {
        match &self.direction {
            Some(d) => crate::text::str_eq(d.as_str(), "desc"),
            None => false,
        }
    }

    /// 0 by default, at most `MAX_OFFSET`.
    pub fn offset(&self) -> (r: usize)
        ensures
            r as nat == clamped_param(param(self.offset), 0, 0, MAX_OFFSET as nat, usize::MAX as nat),
    {
        clamp_usize(as_param(&self.offset), 0, 0, MAX_OFFSET)
    }

    /// 50 by default, 1 to 200.
    pub fn limit(&self) -> (r: usize)
        ensures
            r as nat == clamped_param(param(self.limit), 50, 1, 200, usize::MAX as nat),
    {
        clamp_usize(as_param(&self.limit), 50, 1, 200)
    }
}

/// `?days=&maxLines=` of an address investigation.
pub struct InvestigationQuery {
    pub days: Option<String>,
    pub max_lines: Option<String>,
}

impl InvestigationQuery {
    /// 7 days by default, 1 to 180.
    pub fn days(&self) -> (r: u64)
        ensures
            r as nat == clamped_param(param(self.days), 7, 1, 180, u64::MAX as nat),
    {
        clamp_u64(as_param(&self.days), 7, 1, 180)
    }

    /// The sampled lines per file: the configured number by default, 1 to
    /// 200.
    pub fn max_lines(&self, configured: usize) -> (r: usize)
        ensures
            r as nat == clamped_param(param(self.max_lines), configured as nat, 1, 200, usize::MAX as nat),
    {
        clamp_usize(as_param(&self.max_lines), configured, 1, 200)
    }
}

/// `?days=&path=&offset=&limit=&filter=&sort=&search=` of the log lines of
/// an investigation.
pub struct InvestigationLinesQuery {
    pub days: Option<String>,
    pub path: Option<String>,
    pub offset: Option<String>,
    pub limit: Option<String>,
    pub filter: Option<String>,
    pub sort: Option<String>,
    pub search: Option<String>,
}

impl InvestigationLinesQuery {
    /// 7 days by default, 1 to 180.
    pub fn days(&self) -> (r: u64)
        ensures
            r as nat == clamped_param(param(self.days), 7, 1, 180, u64::MAX as nat),
    {
        clamp_u64(as_param(&self.days), 7, 1, 180)
    }

    /// The log file, empty by default.
    pub fn path(&self) -> (r: String)
        ensures
            r@ == match param(self.path) {
                Some(s) => s,
                None => Seq::empty(),
            },
    {
        proof {
            reveal_strlit("");
            assert(""@ =~= Seq::<char>::empty());
        }
        text_or(&self.path, "")
    }

    /// 0 by default, at most `MAX_OFFSET`.
    pub fn offset(&self) -> (r: usize)
        ensures
            r as nat == clamped_param(param(self.offset), 0, 0, MAX_OFFSET as nat, usize::MAX as nat),
    {
        clamp_usize(as_param(&self.offset), 0, 0, MAX_OFFSET)
    }

    /// 200 by default, 1 to 500.
    pub fn limit(&self) -> (r: usize)
        ensures
            r as nat == clamped_param(param(self.limit), 200, 1, 500, usize::MAX as nat),
    {
        clamp_usize(as_param(&self.limit), 200, 1, 500)
    }

    /// `all` by default.
    pub fn filter(&self) -> (r: String)
        ensures
            r@ == match param(self.filter) {
                Some(s) => s,
                None => "all"@,
            },
    {
        text_or(&self.filter, "all")
    }

    /// `newest` by default.
    pub fn sort(&self) -> (r: String)
        ensures
            r@ == match param(self.sort) {
                Some(s) => s,
                None => "newest"@,
            },
    {
        text_or(&self.sort, "newest")
    }

    /// The search as given, empty by default (lines are searched
    /// lower-cased).
    pub fn search(&self) -> (r: String)
        ensures
            r@ == match param(self.search) {
                Some(s) => s,
                None => Seq::empty(),
            },
    {
        proof {
            reveal_strlit("");
            assert(""@ =~= Seq::<char>::empty());
        }
        text_or(&self.search, "")
    }
}

/// `?offset=&limit=` of the bans list.
pub struct BansQuery {
    pub offset: Option<String>,
    pub limit: Option<String>,
}

} // verus!

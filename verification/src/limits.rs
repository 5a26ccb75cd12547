//! Limits on what the readers of compressed documents and tables take in.
//!
//! Only policy and accounting stand here: the limits, and the account of what has been expanded so
//! far. Every reader asks before it allocates or expands anything.

use vstd::prelude::*;
use crate::bytes::copy_between;
use crate::error::{failure, outcome, ErrorKind, Failure, LibraryError, LibraryResult};
use crate::text::{decimal, push_decimal};

verus! {

/// The size that a compressed document may have (64 MiB).
pub const MAX_ARCHIVE_INPUT_BYTES: u64 = 64 * 1024 * 1024;

/// The size that one entry may declare for its expanded content (32 MiB).
pub const MAX_ENTRY_DECLARED_BYTES: u64 = 32 * 1024 * 1024;

/// The ratio of expanded to compressed size that one entry may have.
pub const MAX_ENTRY_COMPRESSION_RATIO: u64 = 200;

/// The size to which all entries of one archive may expand (128 MiB).
pub const MAX_ARCHIVE_EXPANDED_BYTES: u64 = 128 * 1024 * 1024;

/// The number of characters that one extraction returns; the rest is dropped and reported.
pub const MAX_EXTRACTED_TEXT_CHARS: usize = 2 * 1024 * 1024;

/// The number of rows that one table preview returns.
pub const MAX_TABLE_PREVIEW_ROWS: usize = 500;

/// The number of columns that one table preview returns.
pub const MAX_TABLE_PREVIEW_COLUMNS: usize = 64;

/// The number of characters that a table cell keeps.
pub const MAX_TABLE_CELL_CHARS: usize = 4096;

/// The size to which the entries may expand while a document is indexed.
pub const INDEX_ARCHIVE_EXPANDED_BYTES: u64 = MAX_ARCHIVE_EXPANDED_BYTES;

/// The size to which the entries may expand for a layout preview.
pub const PREVIEW_ARCHIVE_EXPANDED_BYTES: u64 = 96 * 1024 * 1024;

/// The size to which the entries may expand for one page of a table preview.
pub const TABLE_PREVIEW_ARCHIVE_EXPANDED_BYTES: u64 = 64 * 1024 * 1024;

/// What one reading of a compressed document may take.
#[derive(Debug, Clone, Copy, PartialEq, Eq, Structural)]
pub struct ArchiveLimits {
    /// The size of the input.
    pub max_input_bytes: u64,
    /// The declared size of one entry.
    pub max_entry_bytes: u64,
    /// The expanded size of all entries.
    pub max_expanded_bytes: u64,
    /// The compression ratio of one entry.
    pub max_compression_ratio: u64,
}

/// The limits for a purpose: only the expanded size differs between purposes.
pub open spec fn limits_for(max_expanded_bytes: u64) -> ArchiveLimits {
    ArchiveLimits {
        max_input_bytes: MAX_ARCHIVE_INPUT_BYTES,
        max_entry_bytes: MAX_ENTRY_DECLARED_BYTES,
        max_expanded_bytes,
        max_compression_ratio: MAX_ENTRY_COMPRESSION_RATIO,
    }
}

impl ArchiveLimits {
    /// The limits for a purpose: input, entry and ratio limits are the same for all.
    pub fn new(max_expanded_bytes: u64) -> (limits: Self)
        ensures
            limits == limits_for(max_expanded_bytes),
    {
        Self {
            max_input_bytes: MAX_ARCHIVE_INPUT_BYTES,
            max_entry_bytes: MAX_ENTRY_DECLARED_BYTES,
            max_expanded_bytes,
            max_compression_ratio: MAX_ENTRY_COMPRESSION_RATIO,
        }
    }

    /// The limits for indexing.
    pub fn for_index() -> (limits: Self)
        ensures
            limits == limits_for(INDEX_ARCHIVE_EXPANDED_BYTES),
    {
        Self::new(INDEX_ARCHIVE_EXPANDED_BYTES)
    }

    /// The limits for a layout preview.
    pub fn for_preview() -> (limits: Self)
        ensures
            limits == limits_for(PREVIEW_ARCHIVE_EXPANDED_BYTES),
    {
        Self::new(PREVIEW_ARCHIVE_EXPANDED_BYTES)
    }

    /// The limits for one page of a table preview.
    pub fn for_table_preview() -> (limits: Self)
        ensures
            limits == limits_for(TABLE_PREVIEW_ARCHIVE_EXPANDED_BYTES),
    {
        Self::new(TABLE_PREVIEW_ARCHIVE_EXPANDED_BYTES)
    }
}

impl Default for ArchiveLimits {
    fn default() -> (limits: Self)
        ensures
            limits == limits_for(INDEX_ARCHIVE_EXPANDED_BYTES),
    {
        Self::for_index()
    }
}

/// The account of what has been expanded: each entry read is charged, and going over fails.
#[derive(Debug, Clone)]
pub struct ExpansionBudget {
    limits: ArchiveLimits,
    expanded_bytes: u64,
}

/// The message for an input that is too large.
pub open spec fn input_too_large(input_bytes: u64, limit: u64) -> Seq<char> {
    "文档过大："@ + decimal(input_bytes as nat) + " 字节超过上限 "@ + decimal(limit as nat) + " 字节。"@
}

/// The message for an entry that declares too large a size.
pub open spec fn entry_too_large(entry_name: Seq<char>, declared_bytes: u64, limit: u64) -> Seq<char> {
    "文档条目 "@ + entry_name + " 声明解压后为 "@ + decimal(declared_bytes as nat)
        + " 字节，超过单条目上限 "@ + decimal(limit as nat) + " 字节。"@
}

/// The message for an entry that declares no compressed bytes but some content.
pub open spec fn entry_without_bytes(entry_name: Seq<char>) -> Seq<char> {
    "文档条目 "@ + entry_name + " 的压缩大小声明为 0，无法验证解压量，已拒绝解析。"@
}

/// The message for an entry whose compression ratio is too high.
pub open spec fn ratio_too_high(entry_name: Seq<char>, ratio: u64, limit: u64) -> Seq<char> {
    "文档条目 "@ + entry_name + " 的压缩比为 "@ + decimal(ratio as nat) + "，超过上限 "@ + decimal(
        limit as nat,
    ) + "，已拒绝解析。"@
}

/// The message for a charge that goes over the limit.
pub open spec fn charged_over(entry_name: Seq<char>, total: u64, limit: u64) -> Seq<char> {
    "文档累计解压量在读取 "@ + entry_name + " 后达到 "@ + decimal(total as nat) + " 字节，超过上限 "@
        + decimal(limit as nat) + " 字节。"@
}

/// The message for an account that is over its limit.
pub open spec fn over_budget(total: u64, limit: u64) -> Seq<char> {
    "文档累计解压量 "@ + decimal(total as nat) + " 字节超过上限 "@ + decimal(limit as nat) + " 字节。"@
}

/// The message for an entry that expands beyond the limit.
pub open spec fn expands_too_far(entry_name: Seq<char>, actual: u64, limit: u64) -> Seq<char> {
    "文档条目 "@ + entry_name + " 的实际解压量为 "@ + decimal(actual as nat)
        + " 字节，超过单条目上限 "@ + decimal(limit as nat) + " 字节。"@
}

/// The sum of two amounts, or the largest amount where the sum is larger.
pub open spec fn saturating_sum(a: u64, b: u64) -> u64 {
    if a + b > u64::MAX {
        u64::MAX
    } else {
        (a + b) as u64
    }
}

/// Whether an input of this size may be opened.
pub open spec fn input_check(limits: ArchiveLimits, input_bytes: u64) -> Result<(), Failure> {
    if input_bytes > limits.max_input_bytes {
        Err(failure(ErrorKind::Preview, input_too_large(input_bytes, limits.max_input_bytes)))
    } else {
        Ok(())
    }
}

/// Whether an entry may declare `declared` bytes.
pub open spec fn entry_check(limits: ArchiveLimits, entry_name: Seq<char>, declared: u64) -> Result<
    (),
    Failure,
> {
    if declared > limits.max_entry_bytes {
        Err(
            failure(
                ErrorKind::Preview,
                entry_too_large(entry_name, declared, limits.max_entry_bytes),
            ),
        )
    } else {
        Ok(())
    }
}

/// Whether an entry of `compressed` bytes may declare `declared` bytes.
pub open spec fn ratio_check(
    limits: ArchiveLimits,
    entry_name: Seq<char>,
    compressed: u64,
    declared: u64,
) -> Result<(), Failure> {
    if compressed == 0 && declared == 0 {
        Ok(())
    } else if compressed == 0 {
        Err(failure(ErrorKind::Preview, entry_without_bytes(entry_name)))
    } else if declared / compressed > limits.max_compression_ratio {
        Err(
            failure(
                ErrorKind::Preview,
                ratio_too_high(entry_name, declared / compressed, limits.max_compression_ratio),
            ),
        )
    } else {
        Ok(())
    }
}

/// Whether the account may stand at `total` after this entry.
pub open spec fn charge_check(limits: ArchiveLimits, entry_name: Seq<char>, total: u64) -> Result<
    (),
    Failure,
> {
    if total > limits.max_expanded_bytes {
        Err(
            failure(
                ErrorKind::Preview,
                charged_over(entry_name, total, limits.max_expanded_bytes),
            ),
        )
    } else {
        Ok(())
    }
}

/// Whether the account may stand at `total`.
pub open spec fn budget_check(limits: ArchiveLimits, total: u64) -> Result<(), Failure> {
    if total > limits.max_expanded_bytes {
        Err(failure(ErrorKind::Preview, over_budget(total, limits.max_expanded_bytes)))
    } else {
        Ok(())
    }
}

impl ExpansionBudget {
    /// The limits of this account.
    pub closed spec fn allowed(self) -> ArchiveLimits {
        self.limits
    }

    /// What has been charged.
    pub closed spec fn spent(self) -> u64 {
        self.expanded_bytes
    }

    /// An account on which nothing is charged yet.
    pub fn new(limits: ArchiveLimits) -> (budget: Self)
        ensures
            budget.allowed() == limits,
            budget.spent() == 0,
    {
        Self { limits, expanded_bytes: 0 }
    }

    /// The limits of this account.
    pub fn limits(&self) -> (limits: ArchiveLimits)
        ensures
            limits == self.allowed(),
    {
        self.limits
    }

    /// What has been charged.
    pub fn expanded_bytes(&self) -> (total: u64)
        ensures
            total == self.spent(),
    {
        self.expanded_bytes
    }

    /// Whether an input of this size may be opened.
    pub fn check_input_size(&self, input_bytes: u64) -> (result: LibraryResult<()>)
        ensures
            outcome(result) == input_check(self.allowed(), input_bytes),
    {
        if input_bytes > self.limits.max_input_bytes {
            let mut message = "文档过大：".to_owned();
            push_decimal(&mut message, input_bytes);
            message.append(" 字节超过上限 ");
            push_decimal(&mut message, self.limits.max_input_bytes);
            message.append(" 字节。");
            return Err(LibraryError::Preview(message));
        }
        Ok(())
    }

    /// Whether an entry may declare this size.
    pub fn check_entry_size(&self, entry_name: &str, declared_bytes: u64) -> (result: LibraryResult<
        (),
    >)
        ensures
            outcome(result) == entry_check(self.allowed(), entry_name@, declared_bytes),
    {
        if declared_bytes > self.limits.max_entry_bytes {
            let mut message = "文档条目 ".to_owned();
            message.append(entry_name);
            message.append(" 声明解压后为 ");
            push_decimal(&mut message, declared_bytes);
            message.append(" 字节，超过单条目上限 ");
            push_decimal(&mut message, self.limits.max_entry_bytes);
            message.append(" 字节。");
            return Err(LibraryError::Preview(message));
        }
        Ok(())
    }

    /// Whether an entry may expand that far; no compressed bytes but some content is malformed.
    pub fn check_compression_ratio(
        &self,
        entry_name: &str,
        compressed_bytes: u64,
        declared_bytes: u64,
    ) -> (result: LibraryResult<()>)
        ensures
            outcome(result) == ratio_check(
                self.allowed(),
                entry_name@,
                compressed_bytes,
                declared_bytes,
            ),
    {
        if compressed_bytes == 0 {
            if declared_bytes == 0 {
                return Ok(());
            }
            let mut message = "文档条目 ".to_owned();
            message.append(entry_name);
            message.append(" 的压缩大小声明为 0，无法验证解压量，已拒绝解析。");
            return Err(LibraryError::Preview(message));
        }
        let ratio: u64 = declared_bytes / compressed_bytes;
        if ratio > self.limits.max_compression_ratio {
            let mut message = "文档条目 ".to_owned();
            message.append(entry_name);
            message.append(" 的压缩比为 ");
            push_decimal(&mut message, ratio);
            message.append("，超过上限 ");
            push_decimal(&mut message, self.limits.max_compression_ratio);
            message.append("，已拒绝解析。");
            return Err(LibraryError::Preview(message));
        }
        Ok(())
    }

    /// Charges an entry that was read. The total is kept even where it is over the limit.
    pub fn charge(&mut self, entry_name: &str, actual_bytes: usize) -> (result: LibraryResult<()>)
        ensures
            final(self).allowed() == old(self).allowed(),
            final(self).spent() == saturating_sum(old(self).spent(), actual_bytes as u64),
            outcome(result) == charge_check(old(self).allowed(), entry_name@, final(self).spent()),
    {
        self.expanded_bytes = self.expanded_bytes.saturating_add(actual_bytes as u64);
        if self.expanded_bytes > self.limits.max_expanded_bytes {
            let mut message = "文档累计解压量在读取 ".to_owned();
            message.append(entry_name);
            message.append(" 后达到 ");
            push_decimal(&mut message, self.expanded_bytes);
            message.append(" 字节，超过上限 ");
            push_decimal(&mut message, self.limits.max_expanded_bytes);
            message.append(" 字节。");
            return Err(LibraryError::Preview(message));
        }
        Ok(())
    }

    /// Fails where the account is already over its limit.
    pub fn ensure_within_budget(&self) -> (result: LibraryResult<()>)
        ensures
            outcome(result) == budget_check(self.allowed(), self.spent()),
    {
        if self.expanded_bytes > self.limits.max_expanded_bytes {
            let mut message = "文档累计解压量 ".to_owned();
            push_decimal(&mut message, self.expanded_bytes);
            message.append(" 字节超过上限 ");
            push_decimal(&mut message, self.limits.max_expanded_bytes);
            message.append(" 字节。");
            return Err(LibraryError::Preview(message));
        }
        Ok(())
    }
}

/// One more, or the largest value where there is no larger one.
pub open spec fn one_more(n: usize) -> usize {
    if n == usize::MAX {
        n
    } else {
        (n + 1) as usize
    }
}

/// The capacity to read an entry with: one byte above its declared size, so that an entry which
/// ends at the limit can be told from one that goes beyond.
pub fn read_capacity(declared_bytes: u64, limit: u64) -> (capacity: usize)
    ensures
        capacity == one_more((if declared_bytes <= limit {
            declared_bytes
        } else {
            limit
        }) as usize),
{
    let declared: u64 = if declared_bytes <= limit {
        declared_bytes
    } else {
        limit
    };
    (declared as usize).saturating_add(1)
}

/// What reading a whole stream within the limits gives: the bytes or why not, and what the account
/// holds after it. An entry that lies about its size is not charged.
pub open spec fn limited_read(
    limits: ArchiveLimits,
    stream: Seq<u8>,
    entry_name: Seq<char>,
    declared_bytes: u64,
    spent: u64,
) -> (Result<Seq<u8>, Failure>, u64) {
    let total = saturating_sum(spent, stream.len() as u64);
    match entry_check(limits, entry_name, declared_bytes) {
        Err(error) => (Err(error), spent),
        Ok(()) => if stream.len() > limits.max_entry_bytes {
            (
                Err(
                    failure(
                        ErrorKind::Preview,
                        expands_too_far(
                            entry_name,
                            (limits.max_entry_bytes + 1) as u64,
                            limits.max_entry_bytes,
                        ),
                    ),
                ),
                spent,
            )
        } else {
            match charge_check(limits, entry_name, total) {
                Err(error) => (Err(error), total),
                Ok(()) => (Ok(stream), total),
            }
        },
    }
}

/// Reads a stream of bytes within the limits. At most one byte above the entry limit is taken.
pub fn read_stream_limited(
    stream: &[u8],
    entry_name: &str,
    declared_bytes: u64,
    budget: &mut ExpansionBudget,
) -> (result: LibraryResult<Vec<u8>>)
    ensures
        final(budget).allowed() == old(budget).allowed(),
        (outcome(result), final(budget).spent()) == limited_read(
            old(budget).allowed(),
            stream@,
            entry_name@,
            declared_bytes,
            old(budget).spent(),
        ),
{
    if let Err(error) = budget.check_entry_size(entry_name, declared_bytes) {
        return Err(error);
    }
    let limit: u64 = budget.limits.max_entry_bytes;
    let allowed: u64 = limit.saturating_add(1);
    let size: usize = stream.len();
    let taken: usize = if size as u64 <= allowed {
        size
    } else {
        allowed as usize
    };
    let buffer = copy_between(stream, 0, taken);
    if taken as u64 > limit {
        let mut message = "文档条目 ".to_owned();
        message.append(entry_name);
        message.append(" 的实际解压量为 ");
        push_decimal(&mut message, taken as u64);
        message.append(" 字节，超过单条目上限 ");
        push_decimal(&mut message, limit);
        message.append(" 字节。");
        return Err(LibraryError::Preview(message));
    }
    assert(buffer@ =~= stream@);
    match budget.charge(entry_name, taken) {
        Ok(()) => Ok(buffer),
        Err(error) => Err(error),
    }
}

/// Extracted text, and whether the limit cut it.
#[derive(Debug, Clone, PartialEq, Eq)]
pub struct BoundedText {
    pub text: String,
    pub truncated: bool,
}

/// Keeps the first [`MAX_EXTRACTED_TEXT_CHARS`] characters and reports whether any were dropped.
pub fn bound_extracted_text(raw: String) -> (bounded: BoundedText)
    ensures
        bounded.truncated == (raw@.len() > MAX_EXTRACTED_TEXT_CHARS),
        bounded.text@ == (if raw@.len() > MAX_EXTRACTED_TEXT_CHARS {
            raw@.take(MAX_EXTRACTED_TEXT_CHARS as int)
        } else {
            raw@
        }),
{
    let all = crate::text::chars(raw.as_str());
    if all.len() > MAX_EXTRACTED_TEXT_CHARS {
        let text = crate::text::text_between(all.as_slice(), 0, MAX_EXTRACTED_TEXT_CHARS);
        assert(text@ =~= raw@.take(MAX_EXTRACTED_TEXT_CHARS as int));
        BoundedText { text, truncated: true }
    } else {
        BoundedText { text: raw, truncated: false }
    }
}

/// `value` moved into the range from `low` to `high`.
pub open spec fn clamped(value: usize, low: usize, high: usize) -> usize {
    if value < low {
        low
    } else if value > high {
        high
    } else {
        value
    }
}

/// `value` moved into the range from `low` to `high`.
fn clamp(value: usize, low: usize, high: usize) -> (out: usize)
    ensures
        out == clamped(value, low, high),
{
    if value < low {
        low
    } else if value > high {
        high
    } else {
        value
    }
}

/// The rows and columns that a request for a table may have: at least one, at most the limit. The
/// first row is kept as given.
pub fn clamp_table_range(start_row: usize, row_count: usize, column_count: usize) -> (range: (
    usize,
    usize,
    usize,
))
    ensures
        range == (
            start_row,
            clamped(row_count, 1, MAX_TABLE_PREVIEW_ROWS),
            clamped(column_count, 1, MAX_TABLE_PREVIEW_COLUMNS),
        ),
{
    (
        start_row,
        clamp(row_count, 1, MAX_TABLE_PREVIEW_ROWS),
        clamp(column_count, 1, MAX_TABLE_PREVIEW_COLUMNS),
    )
}

// ---- Laws ----

/// Clamping a range twice is the same as clamping it once.
pub proof fn clamping_is_idempotent(value: usize, low: usize, high: usize)
    requires
        low <= high,
    ensures
        low <= clamped(value, low, high) <= high,
        clamped(clamped(value, low, high), low, high) == clamped(value, low, high),
{
}

/// Whatever a stream read returns, the account never shrinks; bytes come back only where they are
/// the whole stream, the account stays within its limit and the entry within its own.
pub proof fn a_read_never_passes_the_limits(
    limits: ArchiveLimits,
    stream: Seq<u8>,
    entry_name: Seq<char>,
    declared_bytes: u64,
    spent: u64,
)
    ensures
        ({
            let (result, total) = limited_read(limits, stream, entry_name, declared_bytes, spent);
            &&& total >= spent
            &&& result matches Ok(bytes) ==> bytes == stream && bytes.len() <= limits.max_entry_bytes
                && total <= limits.max_expanded_bytes
        }),
{
}

/// Once an account is over its limit, every further charge fails and it stays over its limit.
pub proof fn an_overdrawn_budget_stays_overdrawn(
    limits: ArchiveLimits,
    entry_name: Seq<char>,
    spent: u64,
    amount: u64,
)
    requires
        budget_check(limits, spent) is Err,
    ensures
        budget_check(limits, saturating_sum(spent, amount)) is Err,
        charge_check(limits, entry_name, saturating_sum(spent, amount)) is Err,
{
}

/// An input is opened where it is no larger than the limit; an entry is read where it declares and
/// holds no more than its limit and the account has room for it.
pub proof fn what_keeps_the_limits_is_read(
    limits: ArchiveLimits,
    stream: Seq<u8>,
    entry_name: Seq<char>,
    declared_bytes: u64,
    spent: u64,
)
    requires
        stream.len() <= u64::MAX,
    ensures
        input_check(limits, declared_bytes) is Ok <==> declared_bytes <= limits.max_input_bytes,
        limited_read(limits, stream, entry_name, declared_bytes, spent).0 == Ok::<_, Failure>(stream)
            <==> declared_bytes <= limits.max_entry_bytes && stream.len() <= limits.max_entry_bytes
            && (if spent + stream.len() <= u64::MAX {
            spent + stream.len()
        } else {
            u64::MAX as int
        }) <= limits.max_expanded_bytes,
        limited_read(limits, stream, entry_name, declared_bytes, spent).0 is Ok ==> limited_read(
            limits,
            stream,
            entry_name,
            declared_bytes,
            spent,
        ).1 == if spent + stream.len() <= u64::MAX {
            (spent + stream.len()) as u64
        } else {
            u64::MAX
        },
{
}

/// An entry may expand to no more than the ratio allows for the bytes that it takes, and to nothing
/// where it takes none.
pub proof fn entries_expand_within_the_ratio(
    limits: ArchiveLimits,
    entry_name: Seq<char>,
    compressed: u64,
    declared: u64,
)
    ensures
        ratio_check(limits, entry_name, compressed, declared) is Ok <==> if compressed == 0 {
            declared == 0
        } else {
            declared < (limits.max_compression_ratio + 1) * compressed
        },
{
    if compressed > 0 {
        let ratio: int = declared as int / compressed as int;
        let most: int = limits.max_compression_ratio as int;
        let by: int = compressed as int;
        let whole: int = declared as int;
        vstd::arithmetic::div_mod::lemma_fundamental_div_mod(whole, by);
        assert(ratio <= most <==> whole < (most + 1) * by) by (nonlinear_arith)
            requires
                by > 0,
                whole >= 0,
                whole == by * ratio + whole % by,
                0 <= whole % by < by,
        ;
    }
}

} // verus!

//! The usage ledger: which identities have been issued a secret, and what has
//! been sent under their names.

use vstd::prelude::*;

use crate::draws::Draws;
use crate::error::{ErrorKind, MailError};
use crate::order::{column, in_order, listing, numbers, row_before, sorted_rows};
use crate::text::{law_text_order_is_total, text_before};

verus! {

/// One use of an identity (a user name or an email address). It carries just
/// enough to prove the use and to screen lightly for spam: who sent (`identity`),
/// to whom (`recipient`), and the subject line. It never carries the body.
#[derive(Debug, Clone)]
pub struct UsageEvent {
    pub identity: String,
    pub recipient: String,
    pub subject: String,
    pub success: bool,
}

/// One line of [`Ledger::report`].
#[derive(Debug, Clone)]
pub struct UsageRecord {
    pub recipient: String,
    pub subject: String,
    pub success: bool,
    pub occurred_at: String,
}

/// One line of [`Ledger::list_identities`].
#[derive(Debug, Clone)]
pub struct IdentitySummary {
    pub identity: String,
    pub created_at: String,
}

/// A row of the table of identities.
#[derive(Debug, Clone)]
pub struct IdentityRow {
    pub identity: String,
    pub secret: [u8; 4],
    pub created_at: String,
}

/// A row of the table of uses.
#[derive(Debug, Clone)]
pub struct UsageRow {
    pub identity: String,
    pub recipient: String,
    pub subject: String,
    pub success: bool,
    pub occurred_at: String,
}

/// What a [`UsageEvent`] says.
pub struct EventText {
    pub identity: Seq<char>,
    pub recipient: Seq<char>,
    pub subject: Seq<char>,
    pub success: bool,
}

/// What a [`UsageRecord`] says.
pub struct RecordText {
    pub recipient: Seq<char>,
    pub subject: Seq<char>,
    pub success: bool,
    pub occurred_at: Seq<char>,
}

/// What an [`IdentitySummary`] says.
pub struct SummaryText {
    pub identity: Seq<char>,
    pub created_at: Seq<char>,
}

/// What an [`IdentityRow`] says.
pub struct IdentityEntry {
    pub identity: Seq<char>,
    pub secret: Seq<u8>,
    pub created_at: Seq<char>,
}

/// What a [`UsageRow`] says: an event, and when it occurred.
pub struct UsageEntry {
    pub event: EventText,
    pub occurred_at: Seq<char>,
}

impl UsageEvent {
    /// A use of `identity`: to whom, under which subject, and whether it
    /// succeeded.
    pub fn new(identity: String, recipient: String, subject: String, success: bool) -> (event:
        UsageEvent)
        ensures
            event@ == (EventText {
                identity: identity@,
                recipient: recipient@,
                subject: subject@,
                success,
            }),
    {
        UsageEvent { identity, recipient, subject, success }
    }
}

impl View for UsageEvent {
    type V = EventText;

    open spec fn view(&self) -> EventText {
        EventText {
            identity: self.identity@,
            recipient: self.recipient@,
            subject: self.subject@,
            success: self.success,
        }
    }
}

impl View for UsageRecord {
    type V = RecordText;

    open spec fn view(&self) -> RecordText {
        RecordText {
            recipient: self.recipient@,
            subject: self.subject@,
            success: self.success,
            occurred_at: self.occurred_at@,
        }
    }
}

impl View for IdentitySummary {
    type V = SummaryText;

    open spec fn view(&self) -> SummaryText {
        SummaryText { identity: self.identity@, created_at: self.created_at@ }
    }
}

impl View for IdentityRow {
    type V = IdentityEntry;

    open spec fn view(&self) -> IdentityEntry {
        IdentityEntry {
            identity: self.identity@,
            secret: self.secret@,
            created_at: self.created_at@,
        }
    }
}

impl View for UsageRow {
    type V = UsageEntry;

    open spec fn view(&self) -> UsageEntry {
        UsageEntry {
            event: EventText {
                identity: self.identity@,
                recipient: self.recipient@,
                subject: self.subject@,
                success: self.success,
            },
            occurred_at: self.occurred_at@,
        }
    }
}

impl IdentityEntry {
    /// What a listing shows of the row: not the secret.
    pub open spec fn summary(self) -> SummaryText {
        SummaryText { identity: self.identity, created_at: self.created_at }
    }
}

impl UsageEntry {
    /// What a report shows of the row.
    pub open spec fn record(self) -> RecordText {
        RecordText {
            recipient: self.event.recipient,
            subject: self.event.subject,
            success: self.event.success,
            occurred_at: self.occurred_at,
        }
    }
}

/// What a ledger holds: the rows of its two tables, in the order in which they
/// came.
pub struct Tables {
    pub identities: Seq<IdentityEntry>,
    pub usage: Seq<UsageEntry>,
}

impl Tables {
    /// Whether no identity has two rows.
    pub open spec fn wf(self) -> bool {
        forall|i: int, j: int|
            0 <= i < j < self.identities.len() ==> (#[trigger] self.identities[i]).identity != (
            #[trigger] self.identities[j]).identity
    }

    /// Whether row `i` is that of `identity`.
    pub open spec fn is_row_of(self, i: int, identity: Seq<char>) -> bool {
        0 <= i < self.identities.len() && self.identities[i].identity == identity
    }

    /// Whether the identity has been issued a secret that stands.
    pub open spec fn has_identity(self, identity: Seq<char>) -> bool {
        exists|i: int| self.is_row_of(i, identity)
    }

    /// The row of an identity that has one.
    pub open spec fn row_of(self, identity: Seq<char>) -> int {
        choose|i: int| self.is_row_of(i, identity)
    }

    /// The tables after `identity` was issued `secret`. A secret that it had is
    /// replaced, and the time at which it was created stays.
    pub open spec fn issued(self, identity: Seq<char>, secret: Seq<u8>, now: Seq<char>) -> Tables {
        if self.has_identity(identity) {
            let i = self.row_of(identity);
            Tables {
                identities: self.identities.update(
                    i,
                    IdentityEntry { secret, ..self.identities[i] },
                ),
                ..self
            }
        } else {
            Tables {
                identities: self.identities.push(
                    IdentityEntry { identity, secret, created_at: now },
                ),
                ..self
            }
        }
    }

    /// The tables after the secret of `identity` was revoked.
    pub open spec fn revoked(self, identity: Seq<char>) -> Tables {
        if self.has_identity(identity) {
            Tables { identities: self.identities.remove(self.row_of(identity)), ..self }
        } else {
            self
        }
    }

    /// The tables after a use was recorded.
    pub open spec fn used(self, event: EventText, now: Seq<char>) -> Tables {
        Tables { usage: self.usage.push(UsageEntry { event, occurred_at: now }), ..self }
    }

    /// Whether the identity holds `secret`.
    pub open spec fn holds(self, identity: Seq<char>, secret: Seq<u8>) -> bool {
        exists|i: int| #[trigger] self.is_row_of(i, identity) && self.identities[i].secret == secret
    }

    /// Whether row `i` is the first that holds `secret`.
    pub open spec fn first_holder(self, secret: Seq<u8>, i: int) -> bool {
        &&& 0 <= i < self.identities.len()
        &&& self.identities[i].secret == secret
        &&& forall|j: int| 0 <= j < i ==> (#[trigger] self.identities[j]).secret != secret
    }

    /// The identity that `secret` stands for: the one that holds it, the oldest
    /// where several do.
    pub open spec fn holder(self, secret: Seq<u8>) -> Option<Seq<char>> {
        if exists|i: int| self.first_holder(secret, i) {
            Some(self.identities[choose|i: int| self.first_holder(secret, i)].identity)
        } else {
            None
        }
    }

    /// The column of identities.
    pub open spec fn names(self) -> Seq<Seq<char>> {
        self.identities.map_values(|row: IdentityEntry| row.identity)
    }

    /// The column of times of the uses.
    pub open spec fn times(self) -> Seq<Seq<char>> {
        self.usage.map_values(|row: UsageEntry| row.occurred_at)
    }

    /// Whether `rows` are all identities, in alphabetical order.
    pub open spec fn directory(self, rows: Seq<int>) -> bool {
        listing(self.names(), |row: int| true, rows)
    }

    /// Whether `rows` are all uses of `identity`, oldest first.
    pub open spec fn history(self, identity: Seq<char>, rows: Seq<int>) -> bool {
        listing(self.times(), |row: int| self.usage[row].event.identity == identity, rows)
    }

    /// What a directory says of those rows.
    pub open spec fn summaries(self, rows: Seq<int>) -> Seq<SummaryText> {
        rows.map_values(|row: int| self.identities[row].summary())
    }

    /// What a report says of those rows.
    pub open spec fn records(self, rows: Seq<int>) -> Seq<RecordText> {
        rows.map_values(|row: int| self.usage[row].record())
    }
}

/// The ledger: issued identities and their uses.
pub struct Ledger {
    identities: Vec<IdentityRow>,
    usage: Vec<UsageRow>,
    draws: Draws,
}

/// What rows of the table of identities say.
pub open spec fn identity_entries(rows: Seq<IdentityRow>) -> Seq<IdentityEntry> {
    rows.map_values(|row: IdentityRow| row@)
}

/// What rows of the table of uses say.
pub open spec fn usage_entries(rows: Seq<UsageRow>) -> Seq<UsageEntry> {
    rows.map_values(|row: UsageRow| row@)
}

/// What the lines of a directory say.
pub open spec fn summary_texts(lines: Seq<IdentitySummary>) -> Seq<SummaryText> {
    lines.map_values(|line: IdentitySummary| line@)
}

/// What the lines of a report say.
pub open spec fn record_texts(lines: Seq<UsageRecord>) -> Seq<RecordText> {
    lines.map_values(|line: UsageRecord| line@)
}

impl View for Ledger {
    type V = Tables;

    closed spec fn view(&self) -> Tables {
        Tables {
            identities: identity_entries(self.identities@),
            usage: usage_entries(self.usage@),
        }
    }
}

/// A secret of four random bytes: `rand::random`.
///
/// Nothing is claimed of which bytes they are. The draw is put on the account of
/// draws, which this call alone extends. The call needs the operating system's
/// source of random numbers.
#[verifier::external_body]
fn random_secret(draws: &mut Draws) -> (r: [u8; 4])
    ensures
        final(draws)@ == old(draws)@.push(r@),
{
    rand::random()
}

/// What a ledger has drawn is what stands on its account of draws, which nothing but
/// [`random_secret`] extends.
proof fn law_what_is_drawn_stands_on_the_account(ledger: Ledger)
    ensures
        ledger.drawn() == ledger.draws@,
{
}

/// Whether two secrets are the same bytes.
fn same_secret(a: &[u8; 4], b: &[u8; 4]) -> (r: bool)
    ensures
        r == (a@ == b@),
{
    let r: bool = a[0] == b[0] && a[1] == b[1] && a[2] == b[2] && a[3] == b[3];
    proof {
        if r {
            assert(a@ =~= b@);
        }
    }
    r
}

impl Ledger {
    /// The ledger with those rows, in the order in which they came. No identity
    /// may have two rows.
    pub fn open(identities: Vec<IdentityRow>, usage: Vec<UsageRow>) -> (r: Result<
        Ledger,
        MailError,
    >)
        ensures
            ({
                let tables = Tables {
                    identities: identity_entries(identities@),
                    usage: usage_entries(usage@),
                };
                match r {
                    Ok(ledger) => {
                        &&& tables.wf()
                        &&& ledger@ == tables
                        &&& ledger.drawn() == Seq::<Seq<u8>>::empty()
                    },
                    Err(e) => !tables.wf() && e.says(
                        ErrorKind::ConfigReading,
                        "the ledger holds an identity twice"@,
                    ),
                }
            }),
    {
        let ghost tables = Tables {
            identities: identity_entries(identities@),
            usage: usage_entries(usage@),
        };
        let mut j: usize = 0;
        while j < identities.len()
            invariant
                j <= identities@.len(),
                tables == (Tables {
                    identities: identity_entries(identities@),
                    usage: usage_entries(usage@),
                }),
                forall|a: int, b: int|
                    0 <= a < b < j ==> (#[trigger] tables.identities[a]).identity != (
                    #[trigger] tables.identities[b]).identity,
            decreases identities@.len() - j,
        {
            let mut i: usize = 0;
            while i < j
                invariant
                    i <= j < identities@.len(),
                    tables == (Tables {
                        identities: identity_entries(identities@),
                        usage: usage_entries(usage@),
                    }),
                    forall|a: int|
                        0 <= a < i ==> (#[trigger] tables.identities[a]).identity
                            != tables.identities[j as int].identity,
                decreases j - i,
            {
                if identities[i].identity == identities[j].identity {
                    assert(tables.identities[i as int].identity
                        == tables.identities[j as int].identity);
                    assert(!tables.wf());
                    return Err(
                        MailError::new(
                            ErrorKind::ConfigReading,
                            "the ledger holds an identity twice",
                        ),
                    );
                }
                i = i + 1;
            }
            j = j + 1;
        }
        Ok(Ledger { identities, usage, draws: Draws::none() })
    }

    /// The rows of this ledger, in the order in which they came.
    pub fn into_rows(self) -> (r: (Vec<IdentityRow>, Vec<UsageRow>))
        ensures
            identity_entries(r.0@) == self@.identities,
            usage_entries(r.1@) == self@.usage,
    {
        (self.identities, self.usage)
    }

    /// The row of `identity`, or the number of rows where it has none.
    fn find(&self, identity: &String) -> (r: usize)
        ensures
            r <= self@.identities.len(),
            r < self@.identities.len() <==> self@.has_identity(identity@),
            r < self@.identities.len() ==> self@.is_row_of(r as int, identity@),
    {
        let mut i: usize = 0;
        while i < self.identities.len() && self.identities[i].identity != *identity
            invariant
                i <= self.identities@.len(),
                forall|j: int| 0 <= j < i ==> !self@.is_row_of(j, identity@),
            decreases self.identities@.len() - i,
        {
            i = i + 1;
        }
        if i < self.identities.len() {
            assert(self@.is_row_of(i as int, identity@));
        }
        i
    }

    /// The secrets that this ledger has drawn, in order.
    pub closed spec fn drawn(self) -> Seq<Seq<u8>> {
        self.draws@
    }

    /// Issues a fresh random secret to `identity`, in place of any that it has. It
    /// is drawn in this very call, whatever the ledger holds.
    pub fn issue_identity(&mut self, identity: &str, now: &str) -> (r: [u8; 4])
        requires
            old(self)@.wf(),
        ensures
            final(self)@ == old(self)@.issued(identity@, r@, now@),
            final(self)@.wf(),
            final(self).drawn() == old(self).drawn().push(r@),
    {
        let secret: [u8; 4] = random_secret(&mut self.draws);
        self.store_secret(identity, secret, now);
        secret
    }

    /// Issues that secret to `identity`, in place of any that it has.
    pub fn store_secret(&mut self, identity: &str, secret: [u8; 4], now: &str)
        requires
            old(self)@.wf(),
        ensures
            final(self)@ == old(self)@.issued(identity@, secret@, now@),
            final(self)@.wf(),
            final(self).drawn() == old(self).drawn(),
    {
        let name: String = identity.to_owned();
        let i: usize = self.find(&name);
        let ghost before = self@;
        if i < self.identities.len() {
            let created_at: String = self.identities[i].created_at.clone();
            self.identities.set(i, IdentityRow { identity: name, secret, created_at });
            assert(before.row_of(identity@) == i);
            assert(self@.identities =~= before.issued(identity@, secret@, now@).identities);
        } else {
            self.identities.push(
                IdentityRow { identity: name, secret, created_at: now.to_owned() },
            );
            assert(self@.identities =~= before.issued(identity@, secret@, now@).identities);
            assert forall|j: int| 0 <= j < before.identities.len() implies (
            #[trigger] before.identities[j]).identity != identity@ by {
                assert(!before.is_row_of(j, identity@));
            }
        }
    }

    /// The identity that `secret` was issued to, if it stands for any.
    pub fn identity_for_secret(&self, secret: [u8; 4]) -> (r: Option<String>)
        ensures
            match r {
                Some(identity) => self@.holder(secret@) == Some(identity@),
                None => self@.holder(secret@) is None,
            },
    {
        let mut i: usize = 0;
        while i < self.identities.len()
            invariant
                i <= self.identities@.len(),
                forall|j: int|
                    0 <= j < i ==> (#[trigger] self@.identities[j]).secret != secret@,
            decreases self.identities@.len() - i,
        {
            if same_secret(&self.identities[i].secret, &secret) {
                assert(self@.first_holder(secret@, i as int));
                return Some(self.identities[i].identity.clone());
            }
            i = i + 1;
        }
        None
    }

    /// Removes an identity and its secret; its uses stay. Tells whether it was
    /// there.
    pub fn revoke_identity(&mut self, identity: &str) -> (r: bool)
        requires
            old(self)@.wf(),
        ensures
            r == old(self)@.has_identity(identity@),
            final(self)@ == old(self)@.revoked(identity@),
            final(self)@.wf(),
            final(self).drawn() == old(self).drawn(),
    {
        let name: String = identity.to_owned();
        let i: usize = self.find(&name);
        let ghost before = self@;
        if i < self.identities.len() {
            self.identities.remove(i);
            assert(before.row_of(identity@) == i);
            assert(self@.identities =~= before.identities.remove(i as int));
            true
        } else {
            false
        }
    }

    /// Records one use.
    pub fn record_usage(&mut self, event: &UsageEvent, now: &str)
        ensures
            final(self)@ == old(self)@.used(event@, now@),
            final(self).drawn() == old(self).drawn(),
    {
        let ghost before = self@;
        self.usage.push(
            UsageRow {
                identity: event.identity.clone(),
                recipient: event.recipient.clone(),
                subject: event.subject.clone(),
                success: event.success,
                occurred_at: now.to_owned(),
            },
        );
        assert(self@.usage =~= before.used(event@, now@).usage);
    }

    /// Every identity that has a secret, in alphabetical order; never the secret
    /// itself.
    pub fn list_identities(&self) -> (r: Vec<IdentitySummary>)
        ensures
            exists|rows: Seq<int>| #[trigger]
                self@.directory(rows) && summary_texts(r@) == self@.summaries(rows),
    {
        let n: usize = self.identities.len();
        let mut names: Vec<&str> = Vec::new();
        let mut picked: Vec<bool> = Vec::new();
        let mut i: usize = 0;
        while i < n
            invariant
                i <= n,
                n == self.identities@.len(),
                names@.len() == i,
                picked@.len() == i,
                forall|j: int| 0 <= j < i ==> (#[trigger] names@[j])@ == self@.names()[j],
                forall|j: int| 0 <= j < i ==> #[trigger] picked@[j],
            decreases n - i,
        {
            names.push(self.identities[i].identity.as_str());
            picked.push(true);
            i = i + 1;
        }
        let rows: Vec<usize> = sorted_rows(&names, &picked);
        proof {
            assert(column(names@) =~= self@.names());
            let p = |row: int| picked@[row];
            let q = |row: int| true;
            assert forall|row: int| 0 <= row < n && #[trigger] q(row) implies numbers(
                rows@,
            ).contains(row) by {
                assert(p(row));
            }
            assert(self@.directory(numbers(rows@)));
        }
        let mut lines: Vec<IdentitySummary> = Vec::new();
        let mut k: usize = 0;
        while k < rows.len()
            invariant
                k <= rows@.len(),
                n == self.identities@.len(),
                self@.directory(numbers(rows@)),
                lines@.len() == k,
                forall|j: int|
                    0 <= j < k ==> (#[trigger] lines@[j])@ == self@.identities[rows@[j] as int].summary(),
            decreases rows@.len() - k,
        {
            assert(0 <= numbers(rows@)[k as int] < self@.names().len());
            let row: &IdentityRow = &self.identities[rows[k]];
            lines.push(
                IdentitySummary {
                    identity: row.identity.clone(),
                    created_at: row.created_at.clone(),
                },
            );
            k = k + 1;
        }
        assert(summary_texts(lines@) =~= self@.summaries(numbers(rows@)));
        lines
    }

    /// Every use recorded for `identity`, oldest first.
    pub fn report(&self, identity: &str) -> (r: Vec<UsageRecord>)
        ensures
            exists|rows: Seq<int>| #[trigger]
                self@.history(identity@, rows) && record_texts(r@) == self@.records(rows),
    {
        let name: String = identity.to_owned();
        let n: usize = self.usage.len();
        let mut times: Vec<&str> = Vec::new();
        let mut picked: Vec<bool> = Vec::new();
        let mut i: usize = 0;
        while i < n
            invariant
                i <= n,
                n == self.usage@.len(),
                name@ == identity@,
                times@.len() == i,
                picked@.len() == i,
                forall|j: int| 0 <= j < i ==> (#[trigger] times@[j])@ == self@.times()[j],
                forall|j: int|
                    0 <= j < i ==> #[trigger] picked@[j] == (self@.usage[j].event.identity
                        == identity@),
            decreases n - i,
        {
            times.push(self.usage[i].occurred_at.as_str());
            picked.push(self.usage[i].identity == name);
            i = i + 1;
        }
        let rows: Vec<usize> = sorted_rows(&times, &picked);
        proof {
            assert(column(times@) =~= self@.times());
            let p = |row: int| picked@[row];
            let q = |row: int| self@.usage[row].event.identity == identity@;
            assert forall|j: int| 0 <= j < rows@.len() implies 0 <= #[trigger] numbers(
                rows@,
            )[j] < n && q(numbers(rows@)[j]) by {
                assert(p(numbers(rows@)[j]));
            }
            assert forall|row: int| 0 <= row < n && #[trigger] q(row) implies numbers(
                rows@,
            ).contains(row) by {
                assert(p(row));
            }
            assert(self@.history(identity@, numbers(rows@)));
        }
        let mut lines: Vec<UsageRecord> = Vec::new();
        let mut k: usize = 0;
        while k < rows.len()
            invariant
                k <= rows@.len(),
                n == self.usage@.len(),
                self@.history(identity@, numbers(rows@)),
                lines@.len() == k,
                forall|j: int|
                    0 <= j < k ==> (#[trigger] lines@[j])@ == self@.usage[rows@[j] as int].record(),
            decreases rows@.len() - k,
        {
            assert(0 <= numbers(rows@)[k as int] < self@.times().len());
            let row: &UsageRow = &self.usage[rows[k]];
            lines.push(
                UsageRecord {
                    recipient: row.recipient.clone(),
                    subject: row.subject.clone(),
                    success: row.success,
                    occurred_at: row.occurred_at.clone(),
                },
            );
            k = k + 1;
        }
        assert(record_texts(lines@) =~= self@.records(numbers(rows@)));
        lines
    }
}

/// The row of an identity is the only one with its name.
proof fn lemma_row_is_unique(t: Tables, i: int)
    requires
        t.wf(),
        0 <= i < t.identities.len(),
    ensures
        t.has_identity(t.identities[i].identity),
        t.row_of(t.identities[i].identity) == i,
{
    let name = t.identities[i].identity;
    assert(t.is_row_of(i, name));
    let j = t.row_of(name);
    assert(t.is_row_of(j, name));
}

/// A secret that no identity holds stands for nobody, and a secret that some
/// identity holds stands for one that holds it.
pub proof fn law_a_secret_stands_for_one_who_holds_it(t: Tables, secret: Seq<u8>)
    ensures
        t.holder(secret) is None <==> forall|i: int|
            0 <= i < t.identities.len() ==> (#[trigger] t.identities[i]).secret != secret,
        t.holder(secret) is Some ==> t.holds(t.holder(secret)->Some_0, secret),
{
    if exists|i: int| 0 <= i < t.identities.len() && (#[trigger] t.identities[i]).secret == secret {
        let i = choose|i: int|
            0 <= i < t.identities.len() && (#[trigger] t.identities[i]).secret == secret;
        lemma_first_holder_exists(t, secret, i);
    }
    if exists|i: int| t.first_holder(secret, i) {
        let i = choose|i: int| t.first_holder(secret, i);
        let name = t.identities[i].identity;
        assert(t.holder(secret) == Some(name));
        assert(t.is_row_of(i, name) && t.identities[i].secret == secret);
    }
}

proof fn lemma_first_holder_exists(t: Tables, secret: Seq<u8>, i: int)
    requires
        0 <= i < t.identities.len(),
        t.identities[i].secret == secret,
    ensures
        exists|j: int| t.first_holder(secret, j),
    decreases i,
{
    if exists|j: int| 0 <= j < i && (#[trigger] t.identities[j]).secret == secret {
        let j = choose|j: int| 0 <= j < i && (#[trigger] t.identities[j]).secret == secret;
        lemma_first_holder_exists(t, secret, j);
    } else {
        assert(t.first_holder(secret, i));
    }
}

/// A secret resolves to the identity that it was issued to, as long as no older
/// row of another identity holds the same secret.
pub proof fn law_an_issued_secret_resolves_to_its_identity(
    t: Tables,
    identity: Seq<char>,
    secret: Seq<u8>,
    now: Seq<char>,
)
    requires
        t.wf(),
        forall|j: int|
            0 <= j < t.identities.len() && (#[trigger] t.identities[j]).secret == secret
                && t.identities[j].identity != identity ==> t.has_identity(identity) && t.row_of(
                identity,
            ) < j,
    ensures
        t.issued(identity, secret, now).holder(secret) == Some(identity),
{
    let u = t.issued(identity, secret, now);
    let i = if t.has_identity(identity) {
        t.row_of(identity)
    } else {
        t.identities.len() as int
    };
    if t.has_identity(identity) {
        assert(t.is_row_of(i, identity));
    }
    assert forall|j: int| 0 <= j < i implies (#[trigger] u.identities[j]).secret != secret by {
        assert(u.identities[j] == t.identities[j]);
        if t.has_identity(identity) {
            assert(t.identities[j].identity != t.identities[i].identity);
        } else {
            assert(!t.is_row_of(j, identity));
        }
    }
    assert(u.first_holder(secret, i));
    let k = choose|k: int| u.first_holder(secret, k);
    assert(u.first_holder(secret, k));
    if k < i {
        assert(u.identities[k].secret != secret);
    } else if i < k {
        assert(u.identities[i].secret != secret);
    }
}

/// Issuing a secret keeps every other identity as it is and every use that was
/// recorded; an identity that has a secret keeps its place and the time at which
/// it was created; and the ledger stays well formed.
pub proof fn law_issuing_touches_one_identity(
    t: Tables,
    identity: Seq<char>,
    secret: Seq<u8>,
    now: Seq<char>,
)
    requires
        t.wf(),
    ensures
        ({
            let u = t.issued(identity, secret, now);
            &&& u.wf()
            &&& u.usage == t.usage
            &&& u.has_identity(identity)
            &&& u.identities[u.row_of(identity)].secret == secret
            &&& u.identities.len() == t.identities.len() + (if t.has_identity(identity) {
                0int
            } else {
                1int
            })
            &&& forall|i: int|
                0 <= i < t.identities.len() ==> (#[trigger] u.identities[i]).identity
                    == t.identities[i].identity && u.identities[i].created_at
                    == t.identities[i].created_at && (t.identities[i].identity != identity
                    ==> u.identities[i] == t.identities[i])
        }),
{
    let u = t.issued(identity, secret, now);
    if t.has_identity(identity) {
        let i = t.row_of(identity);
        assert(t.is_row_of(i, identity));
        assert forall|j: int| 0 <= j < t.identities.len() implies (
        #[trigger] u.identities[j]).identity == t.identities[j].identity && u.identities[j].created_at
            == t.identities[j].created_at && (t.identities[j].identity != identity
            ==> u.identities[j] == t.identities[j]) by {}
        assert(u.wf());
        lemma_row_is_unique(u, i);
    } else {
        assert forall|j: int| 0 <= j < t.identities.len() implies (
        #[trigger] t.identities[j]).identity != identity by {
            assert(!t.is_row_of(j, identity));
        }
        assert(u.wf());
        lemma_row_is_unique(u, t.identities.len() as int);
    }
}

/// Issuing again rotates the secret: from then on the identity does not stand
/// behind the old one.
pub proof fn law_rotation_retires_the_old_secret(
    t: Tables,
    identity: Seq<char>,
    first: Seq<u8>,
    second: Seq<u8>,
    then: Seq<char>,
    now: Seq<char>,
)
    requires
        t.wf(),
        first != second,
    ensures
        t.issued(identity, first, then).issued(identity, second, now).holder(first) != Some(
            identity,
        ),
        t.issued(identity, first, then).issued(identity, second, now) == t.issued(
            identity,
            second,
            then,
        ),
{
    let u = t.issued(identity, first, then);
    let v = u.issued(identity, second, now);
    law_issuing_touches_one_identity(t, identity, first, then);
    law_issuing_touches_one_identity(u, identity, second, now);
    law_a_secret_stands_for_one_who_holds_it(v, first);
    if v.holder(first) == Some(identity) {
        let j = choose|j: int| #[trigger] v.is_row_of(j, identity) && v.identities[j].secret == first;
        lemma_row_is_unique(v, j);
    }
    let w = t.issued(identity, second, then);
    if t.has_identity(identity) {
        let i = t.row_of(identity);
        assert(t.is_row_of(i, identity));
        lemma_row_is_unique(u, i);
    } else {
        lemma_row_is_unique(u, t.identities.len() as int);
    }
    assert(v.identities =~= w.identities);
}

/// Revoking takes an identity out: it has no secret any more, no secret stands
/// for it, every other identity stays as it is in the same order, and every use
/// that was recorded stays. To revoke again changes nothing.
pub proof fn law_revoking_removes_the_identity_alone(
    t: Tables,
    identity: Seq<char>,
    secret: Seq<u8>,
)
    requires
        t.wf(),
    ensures
        ({
            let u = t.revoked(identity);
            &&& u.wf()
            &&& !u.has_identity(identity)
            &&& u.holder(secret) != Some(identity)
            &&& u.usage == t.usage
            &&& u.identities == t.identities.filter(
                |row: IdentityEntry| row.identity != identity,
            )
            &&& u.revoked(identity) == u
        }),
{
    let u = t.revoked(identity);
    assert(u.wf() && !u.has_identity(identity)) by {
        if t.has_identity(identity) {
            let i = t.row_of(identity);
            assert(t.is_row_of(i, identity));
            assert forall|j: int| 0 <= j < u.identities.len() implies (
            #[trigger] u.identities[j]).identity != identity by {
                if j < i {
                    assert(u.identities[j] == t.identities[j]);
                } else {
                    assert(u.identities[j] == t.identities[j + 1]);
                }
            }
            assert forall|j: int| !u.is_row_of(j, identity) by {}
        }
    }
    lemma_revoking_filters(t, identity);
    law_a_secret_stands_for_one_who_holds_it(u, secret);
}

proof fn lemma_revoking_filters(t: Tables, identity: Seq<char>)
    requires
        t.wf(),
    ensures
        t.revoked(identity).identities == t.identities.filter(
            |row: IdentityEntry| row.identity != identity,
        ),
{
    let keep = |row: IdentityEntry| row.identity != identity;
    if t.has_identity(identity) {
        let i = t.row_of(identity);
        assert(t.is_row_of(i, identity));
        let a = t.identities.take(i);
        let b = t.identities.skip(i + 1);
        let m = seq![t.identities[i]];
        assert(t.identities.remove(i) =~= a + b);
        assert(t.identities =~= a + m + b);
        lemma_filter_keeps_all(a, keep);
        lemma_filter_keeps_all(b, keep);
        assert(m.filter(keep) =~= Seq::<IdentityEntry>::empty()) by {
            reveal(Seq::filter);
            assert(m.drop_last() =~= Seq::<IdentityEntry>::empty());
            lemma_filter_keeps_all(Seq::<IdentityEntry>::empty(), keep);
        }
        Seq::filter_distributes_over_add(a, m, keep);
        Seq::filter_distributes_over_add(a + m, b, keep);
        assert(t.identities.filter(keep) =~= a + b);
    } else {
        assert forall|j: int| 0 <= j < t.identities.len() implies keep(
            #[trigger] t.identities[j],
        ) by {
            assert(!t.is_row_of(j, identity));
        }
        lemma_filter_keeps_all(t.identities, keep);
    }
}

proof fn lemma_filter_keeps_all<A>(s: Seq<A>, keep: spec_fn(A) -> bool)
    requires
        forall|i: int| 0 <= i < s.len() ==> keep(#[trigger] s[i]),
    ensures
        s.filter(keep) == s,
    decreases s.len(),
{
    reveal(Seq::filter);
    if s.len() > 0 {
        lemma_filter_keeps_all(s.drop_last(), keep);
        assert(s =~= s.drop_last().push(s.last()));
    } else {
        assert(s.filter(keep) =~= s);
    }
}

/// A directory lists every identity that has a secret, and no name twice: each
/// name comes strictly before the next in the order of strings.
pub proof fn law_directory_is_alphabetical(t: Tables, rows: Seq<int>, identity: Seq<char>)
    requires
        t.wf(),
        t.directory(rows),
    ensures
        forall|i: int, j: int|
            0 <= i < j < rows.len() ==> text_before(
                t.identities[#[trigger] rows[i]].identity,
                t.identities[#[trigger] rows[j]].identity,
            ),
        t.has_identity(identity) <==> exists|i: int|
            0 <= i < rows.len() && t.identities[#[trigger] rows[i]].identity == identity,
{
    let all = |row: int| true;
    let names = t.names();
    assert forall|i: int, j: int| 0 <= i < j < rows.len() implies text_before(
        t.identities[#[trigger] rows[i]].identity,
        t.identities[#[trigger] rows[j]].identity,
    ) by {
        assert(row_before(names, rows[i], rows[j]));
        assert(names[rows[i]] == t.identities[rows[i]].identity);
        assert(names[rows[j]] == t.identities[rows[j]].identity);
    }
    if t.has_identity(identity) {
        let row = t.row_of(identity);
        assert(t.is_row_of(row, identity));
        assert(all(row));
        let i = choose|i: int| 0 <= i < rows.len() && rows[i] == row;
        assert(t.identities[rows[i]].identity == identity);
    }
    if exists|i: int| 0 <= i < rows.len() && t.identities[#[trigger] rows[i]].identity == identity {
        let i = choose|i: int|
            0 <= i < rows.len() && t.identities[#[trigger] rows[i]].identity == identity;
        assert(t.is_row_of(rows[i], identity));
    }
}

/// A directory tells nothing of the secrets: ledgers with the same identities,
/// created at the same times, have the same directory whatever their secrets.
pub proof fn law_directory_tells_nothing_of_the_secrets(t: Tables, u: Tables, rows: Seq<int>)
    requires
        t.identities.map_values(|row: IdentityEntry| row.summary()) == u.identities.map_values(
            |row: IdentityEntry| row.summary(),
        ),
        t.directory(rows),
    ensures
        u.directory(rows),
        t.summaries(rows) == u.summaries(rows),
{
    let a = t.identities.map_values(|row: IdentityEntry| row.summary());
    let b = u.identities.map_values(|row: IdentityEntry| row.summary());
    assert(a.len() == b.len());
    assert forall|i: int| 0 <= i < t.identities.len() implies (#[trigger] t.identities[i]).summary()
        == u.identities[i].summary() by {
        assert(a[i] == b[i]);
    }
    assert(t.names() =~= u.names()) by {
        assert forall|i: int| 0 <= i < t.identities.len() implies t.names()[i] == u.names()[i] by {
            assert(t.identities[i].summary() == u.identities[i].summary());
        }
    }
    assert forall|i: int| 0 <= i < rows.len() implies t.identities[#[trigger] rows[i]].summary()
        == u.identities[rows[i]].summary() by {}
    assert(t.summaries(rows) =~= u.summaries(rows));
}

/// A report holds every use recorded for the identity once, and no other; an
/// earlier line is not of a later time than a later one, and uses of one time
/// stand in the order in which they were recorded.
pub proof fn law_report_holds_every_use_once_oldest_first(
    t: Tables,
    identity: Seq<char>,
    rows: Seq<int>,
    row: int,
)
    requires
        t.history(identity, rows),
        0 <= row < t.usage.len(),
    ensures
        t.usage[row].event.identity == identity <==> rows.contains(row),
        rows.no_duplicates(),
        forall|i: int, j: int|
            0 <= i < j < rows.len() ==> {
                let a = t.usage[#[trigger] rows[i]].occurred_at;
                let b = t.usage[#[trigger] rows[j]].occurred_at;
                !text_before(b, a) && (a == b ==> rows[i] < rows[j])
            },
{
    let p = |row: int| t.usage[row].event.identity == identity;
    let times = t.times();
    assert(p(row) ==> rows.contains(row));
    assert forall|i: int, j: int| 0 <= i < j < rows.len() implies {
        let a = t.usage[#[trigger] rows[i]].occurred_at;
        let b = t.usage[#[trigger] rows[j]].occurred_at;
        !text_before(b, a) && (a == b ==> rows[i] < rows[j])
    } by {
        let a = t.usage[rows[i]].occurred_at;
        let b = t.usage[rows[j]].occurred_at;
        assert(row_before(times, rows[i], rows[j]));
        assert(times[rows[i]] == a);
        assert(times[rows[j]] == b);
        law_text_order_is_total(a, b, a);
    }
}

/// The table of uses is an append-only log: issuing and revoking leave it as it
/// is, and recording adds one row behind all others, which stay.
pub proof fn law_uses_are_append_only(
    t: Tables,
    identity: Seq<char>,
    secret: Seq<u8>,
    event: EventText,
    now: Seq<char>,
)
    ensures
        t.issued(identity, secret, now).usage == t.usage,
        t.revoked(identity).usage == t.usage,
        t.used(event, now).usage.drop_last() == t.usage,
        t.used(event, now).usage.last() == (UsageEntry { event, occurred_at: now }),
{
    assert(t.used(event, now).usage.drop_last() =~= t.usage);
}

/// Recording a use puts it at the end of its identity's report, unless the clock
/// went back and an earlier line has a later time; the reports of all other
/// identities, and the identities themselves, stay as they are.
pub proof fn law_recording_extends_one_report(
    t: Tables,
    event: EventText,
    now: Seq<char>,
    identity: Seq<char>,
    rows: Seq<int>,
)
    requires
        t.history(identity, rows),
        forall|i: int|
            0 <= i < rows.len() ==> !text_before(now, t.usage[#[trigger] rows[i]].occurred_at),
    ensures
        t.used(event, now).identities == t.identities,
        event.identity != identity ==> t.used(event, now).history(identity, rows),
        event.identity == identity ==> t.used(event, now).history(
            identity,
            rows.push(t.usage.len() as int),
        ),
        t.used(event, now).usage.last() == (UsageEntry { event, occurred_at: now }),
{
    let u = t.used(event, now);
    let n = t.usage.len() as int;
    let p = |row: int| t.usage[row].event.identity == identity;
    let q = |row: int| u.usage[row].event.identity == identity;
    let longer = if event.identity == identity {
        rows.push(n)
    } else {
        rows
    };
    assert forall|i: int| 0 <= i < rows.len() implies 0 <= #[trigger] rows[i] < n && u.usage[rows[i]]
        == t.usage[rows[i]] && u.times()[rows[i]] == t.times()[rows[i]] by {
        assert(p(rows[i]));
    }
    assert forall|i: int, j: int| 0 <= i < j < longer.len() implies row_before(
        u.times(),
        #[trigger] longer[i],
        #[trigger] longer[j],
    ) by {
        assert(longer[i] == rows[i]);
        if j < rows.len() {
            assert(row_before(t.times(), rows[i], rows[j]));
        } else {
            assert(u.times()[n] == now);
            assert(t.times()[rows[i]] == t.usage[rows[i]].occurred_at);
            law_text_order_is_total(t.usage[rows[i]].occurred_at, now, now);
        }
    }
    assert forall|i: int| 0 <= i < longer.len() implies 0 <= #[trigger] longer[i] < u.times().len()
        && q(longer[i]) by {
        if i < rows.len() {
            assert(longer[i] == rows[i]);
            assert(p(rows[i]));
        }
    }
    assert forall|row: int| 0 <= row < u.times().len() && #[trigger] q(row) implies longer.contains(
        row,
    ) by {
        if row < n {
            assert(p(row));
            let i = choose|i: int| 0 <= i < rows.len() && rows[i] == row;
            assert(longer[i] == row);
        } else {
            assert(longer[rows.len() as int] == n);
        }
    }
}

/// Events, rows and lines say what they hold, field for field.
pub proof fn law_rows_and_lines_say_what_they_hold(
    event: UsageEvent,
    record: UsageRecord,
    summary: IdentitySummary,
    identity: IdentityRow,
    usage: UsageRow,
)
    ensures
        event@.identity == event.identity@,
        event@.recipient == event.recipient@,
        event@.subject == event.subject@,
        event@.success == event.success,
        record@.recipient == record.recipient@,
        record@.subject == record.subject@,
        record@.success == record.success,
        record@.occurred_at == record.occurred_at@,
        summary@.identity == summary.identity@,
        summary@.created_at == summary.created_at@,
        identity@.identity == identity.identity@,
        identity@.secret == identity.secret@,
        identity@.created_at == identity.created_at@,
        usage@.event.identity == usage.identity@,
        usage@.event.recipient == usage.recipient@,
        usage@.event.subject == usage.subject@,
        usage@.event.success == usage.success,
        usage@.occurred_at == usage.occurred_at@,
{
}

/// The tables of a ledger hold its rows, all of them, in their order, and a list of
/// lines says what its lines say.
pub proof fn law_tables_hold_the_rows_in_order(
    identities: Seq<IdentityRow>,
    usage: Seq<UsageRow>,
    summaries: Seq<IdentitySummary>,
    records: Seq<UsageRecord>,
    i: int,
)
    ensures
        identity_entries(identities).len() == identities.len(),
        0 <= i < identities.len() ==> identity_entries(identities)[i] == identities[i]@,
        usage_entries(usage).len() == usage.len(),
        0 <= i < usage.len() ==> usage_entries(usage)[i] == usage[i]@,
        summary_texts(summaries).len() == summaries.len(),
        0 <= i < summaries.len() ==> summary_texts(summaries)[i] == summaries[i]@,
        record_texts(records).len() == records.len(),
        0 <= i < records.len() ==> record_texts(records)[i] == records[i]@,
{
}

/// Each line of a directory or of a report tells what its row holds, and there is a
/// line for each of the rows.
pub proof fn law_each_line_tells_what_its_row_holds(t: Tables, rows: Seq<int>, i: int)
    ensures
        t.summaries(rows).len() == rows.len(),
        t.records(rows).len() == rows.len(),
        0 <= i < rows.len() ==> {
            &&& t.summaries(rows)[i].identity == t.identities[rows[i]].identity
            &&& t.summaries(rows)[i].created_at == t.identities[rows[i]].created_at
            &&& t.records(rows)[i].recipient == t.usage[rows[i]].event.recipient
            &&& t.records(rows)[i].subject == t.usage[rows[i]].event.subject
            &&& t.records(rows)[i].success == t.usage[rows[i]].event.success
            &&& t.records(rows)[i].occurred_at == t.usage[rows[i]].occurred_at
        },
{
}

/// A directory has every identity of the ledger once and nothing else.
pub proof fn law_a_directory_has_every_row_once(t: Tables, rows: Seq<int>, row: int)
    requires
        t.directory(rows),
    ensures
        0 <= row < t.identities.len() <==> rows.contains(row),
        rows.no_duplicates(),
{
    let names = t.names();
    let all = |row: int| true;
    assert(names.len() == t.identities.len());
    if 0 <= row < t.identities.len() {
        assert(all(row));
    }
    assert(in_order(names, rows));
    assert forall|i: int, j: int| 0 <= i < j < rows.len() implies #[trigger] rows[i]
        != #[trigger] rows[j] by {
        assert(row_before(names, rows[i], rows[j]));
        law_text_order_is_total(names[rows[i]], names[rows[i]], names[rows[i]]);
    }
}

/// Every line of a report is of a use that was recorded for that identity.
pub proof fn law_a_report_has_uses_of_the_identity_alone(
    t: Tables,
    identity: Seq<char>,
    rows: Seq<int>,
    i: int,
)
    requires
        t.history(identity, rows),
        0 <= i < rows.len(),
    ensures
        0 <= rows[i] < t.usage.len(),
        t.usage[rows[i]].event.identity == identity,
{
    let p = |row: int| t.usage[row].event.identity == identity;
    assert(p(rows[i]));
    assert(t.times().len() == t.usage.len());
}

/// An identity is in the ledger exactly where some row has its name; and a ledger is
/// well formed exactly where no two rows have one name.
pub proof fn law_an_identity_is_there_where_a_row_has_its_name(t: Tables, identity: Seq<char>)
    ensures
        t.has_identity(identity) <==> exists|i: int|
            0 <= i < t.identities.len() && (#[trigger] t.identities[i]).identity == identity,
        t.wf() <==> forall|i: int, j: int|
            0 <= i < j < t.identities.len() ==> (#[trigger] t.identities[i]).identity != (
            #[trigger] t.identities[j]).identity,
{
    if exists|i: int|
        0 <= i < t.identities.len() && (#[trigger] t.identities[i]).identity == identity {
        let i = choose|i: int|
            0 <= i < t.identities.len() && (#[trigger] t.identities[i]).identity == identity;
        assert(t.is_row_of(i, identity));
    }
}

/// What issuing does to the rows. A name that some row has gets the secret into
/// that row, which keeps its place and its time; any other name gets a row of its
/// own behind all others, with the secret and the present time.
pub proof fn law_what_issuing_does_to_the_rows(
    t: Tables,
    identity: Seq<char>,
    secret: Seq<u8>,
    now: Seq<char>,
    i: int,
)
    requires
        t.wf(),
    ensures
        0 <= i < t.identities.len() && t.identities[i].identity == identity ==> t.issued(
            identity,
            secret,
            now,
        ).identities == t.identities.update(
            i,
            IdentityEntry { identity, secret, created_at: t.identities[i].created_at },
        ),
        (forall|j: int|
            0 <= j < t.identities.len() ==> (#[trigger] t.identities[j]).identity != identity)
            ==> t.issued(identity, secret, now).identities == t.identities.push(
            IdentityEntry { identity, secret, created_at: now },
        ),
        t.issued(identity, secret, now).usage == t.usage,
{
    law_an_identity_is_there_where_a_row_has_its_name(t, identity);
    if 0 <= i < t.identities.len() && t.identities[i].identity == identity {
        assert(t.is_row_of(i, identity));
        lemma_row_is_unique(t, i);
    }
}

/// What revoking does to the rows: the row of that name goes, if there is one, and
/// everything else stays in its order.
pub proof fn law_what_revoking_does_to_the_rows(t: Tables, identity: Seq<char>, i: int)
    requires
        t.wf(),
    ensures
        0 <= i < t.identities.len() && t.identities[i].identity == identity ==> t.revoked(
            identity,
        ).identities == t.identities.take(i) + t.identities.skip(i + 1),
        (forall|j: int|
            0 <= j < t.identities.len() ==> (#[trigger] t.identities[j]).identity != identity)
            ==> t.revoked(identity).identities == t.identities,
        t.revoked(identity).usage == t.usage,
{
    law_an_identity_is_there_where_a_row_has_its_name(t, identity);
    if 0 <= i < t.identities.len() && t.identities[i].identity == identity {
        assert(t.is_row_of(i, identity));
        lemma_row_is_unique(t, i);
        assert(t.identities.remove(i) =~= t.identities.take(i) + t.identities.skip(i + 1));
    }
}

/// What recording does to the rows: one more use behind all others, with the event
/// as it came and the present time.
pub proof fn law_what_recording_does_to_the_rows(t: Tables, event: EventText, now: Seq<char>)
    ensures
        t.used(event, now).usage == t.usage.push(UsageEntry { event, occurred_at: now }),
        t.used(event, now).identities == t.identities,
{
}

/// Whom a secret stands for: the name in the first row that holds all its bytes, and
/// nobody where no row does.
pub proof fn law_whom_a_secret_stands_for(t: Tables, secret: Seq<u8>, i: int)
    ensures
        0 <= i < t.identities.len() && t.identities[i].secret == secret && (forall|j: int|
            0 <= j < i ==> (#[trigger] t.identities[j]).secret != secret) ==> t.holder(secret)
            == Some(t.identities[i].identity),
        (forall|j: int|
            0 <= j < t.identities.len() ==> (#[trigger] t.identities[j]).secret != secret)
            ==> t.holder(secret) is None,
{
    if 0 <= i < t.identities.len() && t.identities[i].secret == secret && (forall|j: int|
        0 <= j < i ==> (#[trigger] t.identities[j]).secret != secret) {
        assert(t.first_holder(secret, i));
        let k = choose|k: int| t.first_holder(secret, k);
        assert(t.first_holder(secret, k));
        if k < i {
            assert(t.identities[k].secret != secret);
        } else if i < k {
            assert(t.identities[i].secret != secret);
        }
    }
}

} // verus!

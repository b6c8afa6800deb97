use vstd::prelude::*;
use vstd::string::StringExecFns;

use crate::level::Level;

verus! {

/// A structured value attached to a record under a field name.
#[verifier::external_type_specification]
#[verifier::external_body]
pub struct ExValue(serde_json::Value);

/// The JSON string value holding the characters `s`.
pub uninterp spec fn json_string(s: Seq<char>) -> serde_json::Value;

/// Relies on `serde_json::Value::String`: the value is determined by the
/// characters it holds.
#[verifier::external_body]
fn string_value(s: String) -> (r: serde_json::Value)
    ensures
        r == json_string(s@),
{
    serde_json::Value::String(s)
}

/// Relies on `From<SystemTime> for DateTime<Utc>` and
/// `DateTime::timestamp_millis`: the current wall-clock time in milliseconds
/// since the Unix epoch, negative for a clock set before it. Nothing is known
/// of the value.
#[verifier::external_body]
fn now_millis() -> (r: i64) {
    chrono::DateTime::<chrono::Utc>::from(std::time::SystemTime::now()).timestamp_millis()
}

/// One structured log entry.
///
/// `timestamp` is in milliseconds since the Unix epoch. `fields` maps field
/// names to values; each name occurs at most once (see [`LogStashRecord::wf`]).
#[derive(Clone, Debug)]
pub struct LogStashRecord {
    pub timestamp: Option<i64>,
    pub module: Option<String>,
    pub file: Option<String>,
    pub line: Option<u32>,
    pub level: Level,
    pub target: String,
    pub fields: Vec<(String, serde_json::Value)>,
}

/// The prefix under which metadata fields are stored.
pub const METADATA_PREFIX: &'static str = "@metadata.";

impl Default for LogStashRecord {
    /// The same record as [`LogStashRecord::new`].
    fn default() -> (r: Self)
        ensures
            r.wf(),
            r.timestamp is None,
            r.module is None,
            r.file is None,
            r.line is None,
            r.level == Level::Warn,
            r.target@ == Seq::<char>::empty(),
            r.fields@.len() == 0,
    {
        LogStashRecord::new()
    }
}

impl LogStashRecord {
    /// No field name occurs twice.
    pub open spec fn wf(&self) -> bool {
        forall|i: int, j: int|
            0 <= i < j < self.fields@.len() ==> self.fields@[i].0@ != self.fields@[j].0@
    }

    /// The record holds the field `key` with value `v`.
    pub open spec fn has_field(&self, key: Seq<char>, v: serde_json::Value) -> bool {
        exists|i: int| 0 <= i < self.fields@.len() && self.fields@[i].0@ == key && self.fields@[i].1 == v
    }

    /// The record holds a field named `key`.
    pub open spec fn has_key(&self, key: Seq<char>) -> bool {
        exists|i: int| 0 <= i < self.fields@.len() && self.fields@[i].0@ == key
    }

    /// A record with no timestamp, no location, level `Warn`, an empty
    /// target and no fields.
    pub fn new() -> (r: Self)
        ensures
            r.wf(),
            r.timestamp is None,
            r.module is None,
            r.file is None,
            r.line is None,
            r.level == Level::Warn,
            r.target@ == Seq::<char>::empty(),
            r.fields@.len() == 0,
    {
        LogStashRecord {
            timestamp: None,
            module: None,
            file: None,
            line: None,
            level: Level::Warn,
            target: String::new(),
            fields: Vec::new(),
        }
    }

    /// Like [`LogStashRecord::new`], stamped with the current time.
    pub fn new_with_time_now() -> (r: Self)
        ensures
            r.wf(),
            r.timestamp is Some,
            r.module is None,
            r.file is None,
            r.line is None,
            r.level == Level::Warn,
            r.target@ == Seq::<char>::empty(),
            r.fields@.len() == 0,
    {
        let mut r = Self::new();
        r.timestamp = Some(now_millis());
        r
    }

    /// A record for one event of a logging framework, stamped with the
    /// current time, whose formatted message is stored as the string field
    /// `message`.
    pub fn from_record(
        module: Option<String>,
        file: Option<String>,
        line: Option<u32>,
        level: Level,
        target: String,
        message: String,
    ) -> (r: Self)
        ensures
            r.wf(),
            r.timestamp is Some,
            r.module == module,
            r.file == file,
            r.line == line,
            r.level == level,
            r.target == target,
            r.fields@.len() == 1,
            r.fields@[0].0@ == "message"@,
            r.fields@[0].1 == json_string(message@),
    {
        let mut r = Self::new_with_time_now();
        r.module = module;
        r.file = file;
        r.line = line;
        r.level = level;
        r.target = target;
        let v = string_value(message);
        r.add_data("message", v);
        proof {
            reveal_strlit("message");
        }
        r
    }

    /// Replaces the timestamp (milliseconds since the Unix epoch).
    pub fn set_timestamp(&mut self, timestamp: Option<i64>)
        ensures
            final(self).timestamp == timestamp,
            final(self).module == old(self).module,
            final(self).file == old(self).file,
            final(self).line == old(self).line,
            final(self).level == old(self).level,
            final(self).target == old(self).target,
            final(self).fields == old(self).fields,
    {
        self.timestamp = timestamp;
    }

    /// Sets the metadata field `key`, stored under the name
    /// `"@metadata." + key`; an earlier value of that field is replaced.
    pub fn add_metadata(&mut self, key: &str, value: serde_json::Value)
        requires
            old(self).wf(),
        ensures
            final(self).wf(),
            final(self).has_field(METADATA_PREFIX@ + key@, value),
            forall|k: Seq<char>, v: serde_json::Value|
                k != METADATA_PREFIX@ + key@ ==> (final(self).has_field(k, v) <==> old(self).has_field(k, v)),
            forall|k: Seq<char>|
                k != METADATA_PREFIX@ + key@ ==> (final(self).has_key(k) <==> old(self).has_key(k)),
            final(self).timestamp == old(self).timestamp,
            final(self).module == old(self).module,
            final(self).file == old(self).file,
            final(self).line == old(self).line,
            final(self).level == old(self).level,
            final(self).target == old(self).target,
    {
        let mut name = String::from_str(METADATA_PREFIX);
        name.append(key);
        self.add_data(name.as_str(), value);
    }

    /// Fields other than `key` are the same in `a` and `b` where `b` differs
    /// from `a` at most in entry `i`, which holds `key` in both, or only in
    /// an entry `i` appended at the end.
    proof fn lemma_other_fields(a: LogStashRecord, b: LogStashRecord, key: Seq<char>, i: int)
        requires
            0 <= i < b.fields@.len(),
            b.fields@[i].0@ == key,
            i < a.fields@.len() ==> a.fields@[i].0@ == key,
            b.fields@.len() == a.fields@.len() || (b.fields@.len() == a.fields@.len() + 1
                && i == a.fields@.len()),
            forall|j: int| 0 <= j < a.fields@.len() && j != i ==> b.fields@[j] == a.fields@[j],
        ensures
            forall|k: Seq<char>, v: serde_json::Value|
                k != key ==> (b.has_field(k, v) <==> a.has_field(k, v)),
            forall|k: Seq<char>| k != key ==> (b.has_key(k) <==> a.has_key(k)),
    {
        assert forall|k: Seq<char>, v: serde_json::Value|
            k != key implies (b.has_field(k, v) <==> a.has_field(k, v)) by {
            if b.has_field(k, v) {
                let w = choose|w: int| 0 <= w < b.fields@.len() && b.fields@[w].0@ == k && b.fields@[w].1 == v;
                assert(a.fields@[w] == b.fields@[w]);
            }
            if a.has_field(k, v) {
                let w = choose|w: int| 0 <= w < a.fields@.len() && a.fields@[w].0@ == k && a.fields@[w].1 == v;
                assert(a.fields@[w] == b.fields@[w]);
            }
        }
        assert forall|k: Seq<char>| k != key implies (b.has_key(k) <==> a.has_key(k)) by {
            if b.has_key(k) {
                let w = choose|w: int| 0 <= w < b.fields@.len() && b.fields@[w].0@ == k;
                assert(a.fields@[w] == b.fields@[w]);
            }
            if a.has_key(k) {
                let w = choose|w: int| 0 <= w < a.fields@.len() && a.fields@[w].0@ == k;
                assert(a.fields@[w] == b.fields@[w]);
            }
        }
    }

    /// Sets the field `key`; an earlier value of that field is replaced.
    pub fn add_data(&mut self, key: &str, value: serde_json::Value)
        requires
            old(self).wf(),
        ensures
            final(self).wf(),
            final(self).has_field(key@, value),
            forall|k: Seq<char>, v: serde_json::Value|
                k != key@ ==> (final(self).has_field(k, v) <==> old(self).has_field(k, v)),
            forall|k: Seq<char>|
                k != key@ ==> (final(self).has_key(k) <==> old(self).has_key(k)),
            old(self).has_key(key@) ==> final(self).fields@.len() == old(self).fields@.len(),
            !old(self).has_key(key@) ==> final(self).fields@.len() == old(self).fields@.len() + 1,
            old(self).fields@.len() == 0 ==> final(self).fields@ == seq![(final(self).fields@[0].0, value)],
            final(self).timestamp == old(self).timestamp,
            final(self).module == old(self).module,
            final(self).file == old(self).file,
            final(self).line == old(self).line,
            final(self).level == old(self).level,
            final(self).target == old(self).target,
    {
        let name = key.to_owned();
        let n = self.fields.len();
        let mut i: usize = 0;
        while i < n
            invariant
                n == self.fields@.len(),
                self == old(self),
                old(self).wf(),
                name@ == key@,
                i <= n,
                forall|j: int| 0 <= j < i ==> self.fields@[j].0@ != key@,
            decreases n - i,
        {
            if self.fields[i].0 == name {
                let ghost before = self.fields@;
                self.fields.set(i, (name, value));
                proof {
                    assert(self.fields@[i as int].0@ == key@);
                    assert forall|j: int| 0 <= j < n implies #[trigger] self.fields@[j].0@ == before[j].0@ by {
                        if j != i {
                            assert(before[j] == self.fields@[j]);
                        }
                    }
                    assert forall|a: int, b: int| 0 <= a < b < self.fields@.len() implies
                        self.fields@[a].0@ != self.fields@[b].0@ by {
                        assert(self.fields@[a].0@ == before[a].0@);
                        assert(self.fields@[b].0@ == before[b].0@);
                        assert(old(self).fields@[a].0@ != old(self).fields@[b].0@);
                    }
                    Self::lemma_other_fields(*old(self), *self, key@, i as int);
                }
                return;
            }
            i = i + 1;
        }
        self.fields.push((name, value));
        proof {
            assert(self.fields@[n as int].0@ == key@);
            Self::lemma_other_fields(*old(self), *self, key@, n as int);
            if n == 0 {
                assert(self.fields@ =~= seq![(self.fields@[0].0, value)]);
            }
        }
    }
}

} // verus!

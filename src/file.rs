use vstd::prelude::*;

use crate::config::User;
use crate::decimal::{decimal_of, parse_u64, parse_u64_spec, u64_to_decimal};
use crate::error::{FileError, FileResult};
use crate::string_map::{DeepCopy, StringMap};

verus! {

/// std's `PathBuf`, carried through unopened: the directory a store writes to.
#[verifier::external_type_specification]
#[verifier::external_body]
pub struct ExPathBuf(std::path::PathBuf);

/// A value that a store can start a new file with.
pub trait InitializeFile: Sized {
    spec fn is_initial(&self) -> bool;

    fn init() -> (r: Self)
        ensures
            r.is_initial(),
    ;
}

/// Entity id to payload.
pub type UserIdDataSnapshot<T> = StringMap<T>;

/// Batch key (a decimal millisecond timestamp) to entity map.
pub type TimedStringFile<T> = StringMap<T>;

/// The content of one snapshot file.
pub type BatchLog<T> = TimedStringFile<UserIdDataSnapshot<T>>;

impl<T> InitializeFile for StringMap<T> {
    open spec fn is_initial(&self) -> bool {
        self@ == Map::<Seq<char>, T>::empty()
    }

    fn init() -> (r: Self) {
        StringMap::new()
    }
}

/// A batch log seen as nested maps.
pub open spec fn log_view<T>(log: Map<Seq<char>, StringMap<T>>) -> Map<
    Seq<char>,
    Map<Seq<char>, T>,
> {
    log.map_values(|m: StringMap<T>| m@)
}

/// Every key is an unsigned integer.
pub open spec fn all_keys_numeric<V>(m: Map<Seq<char>, V>) -> bool {
    forall|k: Seq<char>| #[trigger] m.contains_key(k) ==> parse_u64_spec(k).is_some()
}

/// `k` is a key whose number is at least that of every other key.
pub open spec fn is_latest_key<V>(m: Map<Seq<char>, V>, k: Seq<char>) -> bool {
    &&& m.contains_key(k)
    &&& all_keys_numeric(m)
    &&& forall|j: Seq<char>| #[trigger]
        m.contains_key(j) ==> parse_u64_spec(j).unwrap() <= parse_u64_spec(k).unwrap()
}

/// The part of a file name before its first `.`.
pub open spec fn file_stem(s: Seq<char>) -> Seq<char>
    decreases s.len(),
{
    if s.len() == 0 || s[0] == '.' {
        Seq::empty()
    } else {
        seq![s[0]] + file_stem(s.drop_first())
    }
}

/// The timestamp that a file name stands for, if its stem is a number.
pub open spec fn name_timestamp(name: Seq<char>) -> Option<u64> {
    parse_u64_spec(file_stem(name))
}

/// A file whose age is below the window is written again.
pub open spec fn reuses(window: u64, file_time: u64, now: u64) -> bool {
    (now as int) - (file_time as int) < (window as int)
}

proof fn lemma_file_stem(s: Seq<char>, i: int)
    requires
        0 <= i <= s.len(),
        forall|j: int| 0 <= j < i ==> s[j] != '.',
        i == s.len() || s[i] == '.',
    ensures
        file_stem(s) == s.subrange(0, i),
    decreases i,
{
    if i > 0 {
        lemma_file_stem(s.drop_first(), i - 1);
        assert(s.subrange(0, i) =~= seq![s[0]] + s.drop_first().subrange(0, i - 1));
    } else {
        assert(s.subrange(0, i) =~= Seq::<char>::empty());
    }
}

/// The stem of a file name: what comes before its first `.`.
pub fn stem(name: &str) -> (r: &str)
    ensures
        r@ == file_stem(name@),
{
    let len = name.unicode_len();
    let mut i: usize = 0;
    while i < len && name.get_char(i) != '.'
        invariant
            i <= len,
            len == name@.len(),
            forall|j: int| 0 <= j < i ==> name@[j] != '.',
        decreases len - i,
    {
        i = i + 1;
    }
    proof {
        lemma_file_stem(name@, i as int);
    }
    name.substring_char(0, i)
}

/// A location ping.
#[derive(Clone, Debug, PartialEq, Eq)]
pub struct LocationSnapshot {
    pub latitude: String,
    pub longitude: String,
    pub address: Option<String>,
}

impl LocationSnapshot {
    pub fn new(latitude: String, longitude: String, address: Option<String>) -> (r: Self)
        ensures
            r.latitude == latitude,
            r.longitude == longitude,
            r.address == address,
    {
        LocationSnapshot { latitude, longitude, address }
    }
}

fn copy_optional(s: &Option<String>) -> (r: Option<String>)
    ensures
        r == *s,
{
    match s {
        Some(v) => Some(v.clone()),
        None => None,
    }
}

impl DeepCopy for LocationSnapshot {
    fn deep_copy(&self) -> (r: Self) {
        LocationSnapshot {
            latitude: self.latitude.clone(),
            longitude: self.longitude.clone(),
            address: copy_optional(&self.address),
        }
    }
}

/// The location part of a user-status ping.
#[derive(Clone, Debug, PartialEq, Eq)]
pub struct UserDataSnapshotLocation {
    pub latitude: String,
    pub longitude: String,
    pub address: Option<String>,
    pub battery: u8,
}

impl UserDataSnapshotLocation {
    pub fn new(location: &LocationSnapshot, battery: u8) -> (r: Self)
        ensures
            r.latitude == location.latitude,
            r.longitude == location.longitude,
            r.address == location.address,
            r.battery == battery,
    {
        UserDataSnapshotLocation {
            latitude: location.latitude.clone(),
            longitude: location.longitude.clone(),
            address: copy_optional(&location.address),
            battery,
        }
    }
}

impl DeepCopy for UserDataSnapshotLocation {
    fn deep_copy(&self) -> (r: Self) {
        UserDataSnapshotLocation {
            latitude: self.latitude.clone(),
            longitude: self.longitude.clone(),
            address: copy_optional(&self.address),
            battery: self.battery,
        }
    }
}

/// A user-status ping: a location with the user's battery and identity.
#[derive(Clone, Debug, PartialEq, Eq)]
pub struct UserDataSnapshot {
    pub location: UserDataSnapshotLocation,
    pub avatar: String,
    pub first_name: String,
    pub last_name: String,
}

impl UserDataSnapshot {
    pub fn new(location: UserDataSnapshotLocation, user: &User) -> (r: Self)
        ensures
            r.location == location,
            r.avatar == user.avatar,
            r.first_name == user.first_name,
            r.last_name == user.last_name,
    {
        UserDataSnapshot {
            location,
            avatar: user.avatar.clone(),
            first_name: user.first_name.clone(),
            last_name: user.last_name.clone(),
        }
    }
}

impl DeepCopy for UserDataSnapshot {
    fn deep_copy(&self) -> (r: Self) {
        UserDataSnapshot {
            location: self.location.deep_copy(),
            avatar: self.avatar.clone(),
            first_name: self.first_name.clone(),
            last_name: self.last_name.clone(),
        }
    }
}

impl<V> StringMap<V> {
    /// The value under the key with the largest number; an error if a key is
    /// not a number.
    pub fn get_latest_data(&self) -> (r: FileResult<Option<&V>>)
        ensures
            r is Err <==> !all_keys_numeric(self@),
            r matches Err(e) ==> (e matches FileError::ParseIntError(k) && self@.contains_key(k@)
                && parse_u64_spec(k@).is_none()),
            (r matches Ok(None)) <==> (all_keys_numeric(self@) && self@.len() == 0),
            r matches Ok(Some(v)) ==> exists|k: Seq<char>|
                is_latest_key(self@, k) && self@[k] == *v,
    {
        let n = self.len();
        let mut biggest: Option<(u64, usize)> = None;
        let mut i: usize = 0;
        while i < n
            invariant
                n == self.key_seq().len(),
                n == self@.len(),
                forall|k: Seq<char>| #[trigger] self@.contains_key(k) <==> self.key_seq().contains(k),
                forall|j: int| 0 <= j < n ==> #[trigger] self@.contains_key(self.key_seq()[j]),
                i <= n,
                forall|j: int| 0 <= j < i ==> (#[trigger] parse_u64_spec(self.key_seq()[j])).is_some(),
                biggest is None <==> i == 0,
                biggest matches Some((b, bi)) ==> bi < i && parse_u64_spec(self.key_seq()[bi as int])
                    == Some(b) && forall|j: int|
                    0 <= j < i ==> (#[trigger] parse_u64_spec(self.key_seq()[j])).unwrap() <= b,
            decreases n - i,
        {
            let key = self.key_at(i);
            match parse_u64(key.as_str()) {
                None => {
                    proof {
                        assert(self@.contains_key(self.key_seq()[i as int]));
                    }
                    return Err(FileError::ParseIntError(key.clone()));
                },
                Some(v) => {
                    match biggest {
                        None => {
                            biggest = Some((v, i));
                        },
                        Some((b, _)) => {
                            if v > b {
                                biggest = Some((v, i));
                            }
                        },
                    }
                },
            }
            i = i + 1;
        }
        match biggest {
            None => Ok(None),
            Some((_, bi)) => {
                let r = self.value_at(bi);
                proof {
                    let k = self.key_seq()[bi as int];
                    assert forall|j: Seq<char>| #[trigger] self@.contains_key(j) implies parse_u64_spec(
                        j,
                    ).is_some() && parse_u64_spec(j).unwrap() <= parse_u64_spec(k).unwrap() by {
                        assert(self.key_seq().contains(j));
                        let jj = choose|jj: int| 0 <= jj < n && self.key_seq()[jj] == j;
                        assert(parse_u64_spec(self.key_seq()[jj]).is_some());
                    }
                    assert(is_latest_key(self@, k));
                }
                Ok(Some(r))
            },
        }
    }

    /// Adds a batch under the decimal spelling of `now`.
    pub fn received_new_data(&mut self, received_data: V, now: u64)
        ensures
            final(self)@ == old(self)@.insert(decimal_of(now as nat), received_data),
    {
        self.insert(u64_to_decimal(now), received_data);
    }
}

/// The entity map of the batch with the largest key; empty for an empty log.
pub open spec fn latest_of<T>(log: Map<Seq<char>, Map<Seq<char>, T>>) -> Map<Seq<char>, T> {
    if log.len() == 0 {
        Map::empty()
    } else {
        log[choose|k: Seq<char>| is_latest_key(log, k)]
    }
}

/// Every key is the shortest decimal spelling of its number, as the store
/// writes them.
pub open spec fn canonical_keys<V>(m: Map<Seq<char>, V>) -> bool {
    forall|k: Seq<char>| #[trigger]
        m.contains_key(k) ==> parse_u64_spec(k).is_some() && decimal_of(
            parse_u64_spec(k).unwrap() as nat,
        ) == k
}

/// The file that an update writes, given the newest file (its timestamp and
/// content) before it: the file's timestamp and its new content.
pub open spec fn next_file<T>(
    window: u64,
    newest: Option<(u64, Map<Seq<char>, Map<Seq<char>, T>>)>,
    entity_id: Seq<char>,
    payload: T,
    now: u64,
) -> (u64, Map<Seq<char>, Map<Seq<char>, T>>) {
    match newest {
        None => (now, map![decimal_of(now as nat) => map![entity_id => payload]]),
        Some((t, log)) => {
            let base = latest_of(log).insert(entity_id, payload);
            if reuses(window, t, now) {
                (t, log.insert(decimal_of(now as nat), base))
            } else {
                (now, map![decimal_of(now as nat) => base])
            }
        },
    }
}

/// `base` is the entity map that an update starts from, given the content of
/// the newest file: that of a batch with the largest key, or nothing.
pub open spec fn is_base_state<T>(
    newest: Option<Map<Seq<char>, StringMap<T>>>,
    base: Map<Seq<char>, T>,
) -> bool {
    match newest {
        None => base == Map::<Seq<char>, T>::empty(),
        Some(log) => if log.len() == 0 {
            base == Map::<Seq<char>, T>::empty()
        } else {
            exists|k: Seq<char>| is_latest_key(log, k) && base == log[k]@
        },
    }
}

proof fn lemma_latest_key_view<T>(log: Map<Seq<char>, StringMap<T>>, k: Seq<char>)
    ensures
        is_latest_key(log, k) == is_latest_key(log_view(log), k),
        log.len() == log_view(log).len(),
        canonical_keys(log) == canonical_keys(log_view(log)),
{
    assert(log.dom() =~= log_view(log).dom());
}

/// With canonical keys, only one key is the latest.
pub proof fn lemma_latest_key_unique<V>(m: Map<Seq<char>, V>, a: Seq<char>, b: Seq<char>)
    requires
        canonical_keys(m),
        is_latest_key(m, a),
        is_latest_key(m, b),
    ensures
        a == b,
{
    let x = parse_u64_spec(a).unwrap();
    let y = parse_u64_spec(b).unwrap();
    assert(x <= y && y <= x);
}

proof fn lemma_base_is_latest<T>(log: Map<Seq<char>, StringMap<T>>, base: Map<Seq<char>, T>)
    requires
        canonical_keys(log),
        is_base_state(Some(log), base),
    ensures
        base == latest_of(log_view(log)),
{
    if log.len() != 0 {
        let k = choose|k: Seq<char>| is_latest_key(log, k) && base == log[k]@;
        lemma_latest_key_view(log, k);
        let c = choose|c: Seq<char>| is_latest_key(log_view(log), c);
        lemma_latest_key_view(log, c);
        lemma_latest_key_unique(log, k, c);
    } else {
        lemma_latest_key_view(log, Seq::empty());
    }
}


/// The content of the newest file, if there is one.
pub open spec fn newest_content<T>(newest: Option<(u64, BatchLog<T>)>) -> Option<
    Map<Seq<char>, StringMap<T>>,
> {
    match newest {
        Some((_, l)) => Some(l@),
        None => None,
    }
}

/// The newest file as the model of `next_file` sees it.
pub open spec fn newest_model<T>(newest: Option<(u64, BatchLog<T>)>) -> Option<
    (u64, Map<Seq<char>, Map<Seq<char>, T>>),
> {
    match newest {
        Some((ft, l)) => Some((ft, log_view(l@))),
        None => None,
    }
}

/// What an update returns, given the window, the newest file before it, and
/// its arguments: a parse error where the newest file has a key that is not
/// a number; else the file to write, whose new batch at `now` is the latest
/// entity map with the payload stored for the entity.
pub open spec fn is_update_result<T>(
    window: u64,
    newest: Option<(u64, BatchLog<T>)>,
    entity_id: Seq<char>,
    payload: T,
    now: u64,
    r: FileResult<(u64, BatchLog<T>)>,
) -> bool {
    let newest_log = newest_content(newest);
    let newest_view = newest_model(newest);
    &&& r is Err <==> (newest_log is Some && !all_keys_numeric(newest_log.unwrap()))
    &&& r matches Err(e) ==> e is ParseIntError
    &&& r matches Ok((t, log)) ==> exists|base: Map<Seq<char>, T>|
        {
            let batch = base.insert(entity_id, payload);
            &&& #[trigger] is_base_state(newest_log, base)
            &&& match newest_view {
                Some((ft, lv)) => if reuses(window, ft, now) {
                    t == ft && log_view(log@) == lv.insert(decimal_of(now as nat), batch)
                } else {
                    t == now && log_view(log@) == map![decimal_of(now as nat) => batch]
                },
                None => t == now && log_view(log@) == map![decimal_of(now as nat) => batch],
            }
        }
    &&& r is Ok && (newest_log is Some ==> canonical_keys(newest_log.unwrap())) ==> (
        r->Ok_0.0,
        log_view(r->Ok_0.1@),
    ) == next_file(window, newest_view, entity_id, payload, now)
}

/// Which file an update writes: the newest one again, or a new one.
#[derive(Clone, Copy, Debug, PartialEq, Eq)]
pub enum CurrentFile {
    Reuse(u64),
    Fresh(u64),
}

/// A directory of snapshot files and the window within which the newest one
/// is written again.
pub struct ManagedDirectory {
    pub directory: std::path::PathBuf,
    pub duration: u64,
}

impl ManagedDirectory {
    pub fn new(directory: std::path::PathBuf, duration: u64) -> (r: ManagedDirectory)
        ensures
            r.directory == directory,
            r.duration == duration,
    {
        ManagedDirectory { directory, duration }
    }

    /// Of the file names whose stem is a number, the first with the largest
    /// number, and its index; other names are passed over.
    pub fn get_newest_file(names: &Vec<String>) -> (r: Option<(u64, usize)>)
        ensures
            r is None <==> forall|i: int|
                0 <= i < names@.len() ==> (#[trigger] name_timestamp(names@[i]@)) is None,
            r matches Some((t, idx)) ==> {
                &&& idx < names@.len()
                &&& name_timestamp(names@[idx as int]@) == Some(t)
                &&& forall|i: int|
                    0 <= i < names@.len() && (#[trigger] name_timestamp(names@[i]@)) is Some
                        ==> name_timestamp(names@[i]@).unwrap() <= t
                &&& forall|i: int|
                    0 <= i < idx && (#[trigger] name_timestamp(names@[i]@)) is Some
                        ==> name_timestamp(names@[i]@).unwrap() < t
            },
    {
        let mut newest: Option<(u64, usize)> = None;
        let mut i: usize = 0;
        while i < names.len()
            invariant
                i <= names@.len(),
                newest is None <==> forall|j: int|
                    0 <= j < i ==> (#[trigger] name_timestamp(names@[j]@)) is None,
                newest matches Some((t, idx)) ==> {
                    &&& idx < i
                    &&& name_timestamp(names@[idx as int]@) == Some(t)
                    &&& forall|j: int|
                        0 <= j < i && (#[trigger] name_timestamp(names@[j]@)) is Some
                            ==> name_timestamp(names@[j]@).unwrap() <= t
                    &&& forall|j: int|
                        0 <= j < idx && (#[trigger] name_timestamp(names@[j]@)) is Some
                            ==> name_timestamp(names@[j]@).unwrap() < t
                },
            decreases names@.len() - i,
        {
            let name = names[i].as_str();
            match parse_u64(stem(name)) {
                Some(number) => match newest {
                    Some((current, _)) => {
                        if current < number {
                            newest = Some((number, i));
                        }
                    },
                    None => {
                        newest = Some((number, i));
                    },
                },
                None => {},
            }
            i = i + 1;
        }
        newest
    }

    /// Whether an update at `now` writes the newest file again.
    pub fn current_file(&self, newest: Option<u64>, now: u64) -> (r: CurrentFile)
        ensures
            r == match newest {
                Some(t) => if reuses(self.duration, t, now) {
                    CurrentFile::Reuse(t)
                } else {
                    CurrentFile::Fresh(now)
                },
                None => CurrentFile::Fresh(now),
            },
    {
        match newest {
            Some(t) => {
                if now < t || now - t < self.duration {
                    CurrentFile::Reuse(t)
                } else {
                    CurrentFile::Fresh(now)
                }
            },
            None => CurrentFile::Fresh(now),
        }
    }

    /// The file an update writes and what it holds before: the newest file
    /// while it is within the window, else a fresh one at `now`.
    pub fn read_current_file<T: InitializeFile>(&self, newest: Option<(u64, T)>, now: u64) -> (r: (
        u64,
        T,
    ))
        ensures
            newest is Some && reuses(self.duration, newest.unwrap().0, now) ==> r == newest.unwrap(),
            !(newest is Some && reuses(self.duration, newest.unwrap().0, now)) ==> r.0 == now
                && r.1.is_initial(),
    {
        match newest {
            Some((t, content)) => {
                match self.current_file(Some(t), now) {
                    CurrentFile::Reuse(t) => (t, content),
                    CurrentFile::Fresh(now) => (now, T::init()),
                }
            },
            None => (now, T::init()),
        }
    }

    /// A copy of the entity map of the newest file's latest batch; nothing
    /// where there is no file or it holds no batch.
    pub fn latest_entity_map<T: DeepCopy>(newest: &Option<(u64, BatchLog<T>)>) -> (r: FileResult<
        Option<UserIdDataSnapshot<T>>,
    >)
        ensures
            match newest {
                Some((_, log)) => {
                    &&& r is Err <==> !all_keys_numeric(log@)
                    &&& (r matches Ok(None)) <==> (all_keys_numeric(log@) && log@.len() == 0)
                    &&& r matches Ok(Some(m)) ==> exists|k: Seq<char>|
                        is_latest_key(log@, k) && m@ == log@[k]@
                },
                None => r matches Ok(None),
            },
            r matches Err(e) ==> e is ParseIntError,
    {
        match newest {
            Some((_, log)) => match log.get_latest_data() {
                Ok(Some(m)) => Ok(Some(m.deep_copy())),
                Ok(None) => Ok(None),
                Err(e) => Err(e),
            },
            None => Ok(None),
        }
    }

    /// One update: merges `payload` for `entity_id` into the latest known
    /// entity map and adds it as a batch at `now` to the file that is written.
    /// Takes the newest file's timestamp and content, if there is one, and
    /// returns the timestamp and content of the file to write.
    pub fn update<T: DeepCopy>(
        &self,
        newest: Option<(u64, BatchLog<T>)>,
        entity_id: String,
        payload: T,
        now: u64,
    ) -> (r: FileResult<(u64, BatchLog<T>)>)
        ensures
            is_update_result(self.duration, newest, entity_id@, payload, now, r),
    {
        let mut base = match Self::latest_entity_map(&newest) {
            Ok(Some(m)) => m,
            Ok(None) => UserIdDataSnapshot::init(),
            Err(e) => {
                return Err(e);
            },
        };
        let ghost base0 = base@;
        base.insert(entity_id, payload);
        let ghost nv = newest_model(newest);
        let ghost nl = newest_content(newest);
        let ghost old_log = newest.unwrap().1@;
        let (target, mut log) = self.read_current_file(newest, now);
        let ghost log0 = log@;
        log.received_new_data(base, now);
        proof {
            assert(is_base_state(nl, base0));
            assert(log_view(log@) =~= log_view(log0).insert(
                decimal_of(now as nat),
                base0.insert(entity_id@, payload),
            ));
            match nv {
                Some((ft, lv)) => {
                    if !reuses(self.duration, ft, now) {
                        assert(log_view(log@) =~= map![decimal_of(now as nat) => base0.insert(entity_id@, payload)]);
                    }
                    if canonical_keys(old_log) {
                        lemma_base_is_latest(old_log, base0);
                    }
                },
                None => {
                    assert(log_view(log@) =~= map![decimal_of(now as nat) => base0.insert(entity_id@, payload)]);
                    assert(base0.insert(entity_id@, payload) =~= map![entity_id@ => payload]);
                },
            }
        }
        Ok((target, log))
    }
}

/// The store of user-status pings.
pub struct UserDataWriter {
    pub file: ManagedDirectory,
}

impl UserDataWriter {
    pub fn new(directory: std::path::PathBuf, duration: u64) -> (r: UserDataWriter)
        ensures
            r.file.directory == directory,
            r.file.duration == duration,
    {
        UserDataWriter { file: ManagedDirectory::new(directory, duration) }
    }

    /// Records a user-status ping at `now`, given the newest file; returns the
    /// file to write.
    pub fn data_update(
        &self,
        newest: Option<(u64, BatchLog<UserDataSnapshot>)>,
        user_id: String,
        data_snapshot: UserDataSnapshot,
        now: u64,
    ) -> (r: FileResult<(u64, BatchLog<UserDataSnapshot>)>)
        ensures
            is_update_result(self.file.duration, newest, user_id@, data_snapshot, now, r),
    {
        self.file.update(newest, user_id, data_snapshot, now)
    }
}

/// The store of location pings.
pub struct LocationWriter {
    pub file: ManagedDirectory,
}

impl LocationWriter {
    pub fn new(directory: std::path::PathBuf, duration: u64) -> (r: LocationWriter)
        ensures
            r.file.directory == directory,
            r.file.duration == duration,
    {
        LocationWriter { file: ManagedDirectory::new(directory, duration) }
    }

    /// Records a location ping at `now`, given the newest file; returns the
    /// file to write.
    pub fn location_update(
        &self,
        newest: Option<(u64, BatchLog<LocationSnapshot>)>,
        user_id: String,
        location_snapshot: LocationSnapshot,
        now: u64,
    ) -> (r: FileResult<(u64, BatchLog<LocationSnapshot>)>)
        ensures
            is_update_result(self.file.duration, newest, user_id@, location_snapshot, now, r),
    {
        self.file.update(newest, user_id, location_snapshot, now)
    }
}

} // verus!

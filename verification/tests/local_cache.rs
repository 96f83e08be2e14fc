use std::sync::Arc;

use bytes::Bytes;
use futures::executor::block_on;
use futures::TryStreamExt;
use object_store::memory::InMemory;
use object_store::path::Path;
use object_store::{GetOptions, MultipartUpload, ObjectMeta, ObjectStore, ObjectStoreExt, PutPayload};
use object_store_wrappers::commit::{Commit, CommitProgress};
use object_store_wrappers::listing::{Directory, DirectoryReply};
use object_store_wrappers::local_cache::{LocalCacheObjectStore, LOCAL_CACHE_DIR_OPTION};
use object_store_wrappers::location::Location;
use object_store_wrappers::location_map::Entry;
use object_store_wrappers::operation::{LocalCacheUpload, OperationProgress};
use object_store_wrappers::protocol::{
    Call, Error, Progress, Reply, Side, StoreError, SyncReply,
};
use object_store_wrappers::removal::DELETE_CONCURRENCY;
use object_store_wrappers::wrapper::LocalCacheObjectStoreWrapper;

type Store = Arc<dyn ObjectStore>;
type Fault = object_store::Error;
type Failure = Error<Location, Fault>;

fn at(text: &str) -> Location {
    Location::parse(text).unwrap()
}

fn path(location: &Location) -> Path {
    Path::parse(location.as_str()).unwrap()
}

fn location_of(path: &Path) -> Location {
    Location::parse(path.as_ref()).unwrap()
}

fn classified(fault: Fault) -> StoreError<Fault> {
    match fault {
        Fault::NotFound { .. } => StoreError::NotFound(fault),
        _ => StoreError::Other(fault),
    }
}

fn fetch(store: &Store, location: &Location) -> Result<Bytes, Fault> {
    block_on(async { store.get(&path(location)).await?.bytes().await })
}

fn save(store: &Store, location: &Location, content: Bytes) -> Result<(), Fault> {
    block_on(store.put(&path(location), PutPayload::from(content))).map(|_| ())
}

fn listed(store: &Store, prefix: Option<&Location>) -> Result<Vec<ObjectMeta>, Fault> {
    let prefix = prefix.map(path);
    block_on(store.list(prefix.as_ref()).try_collect::<Vec<_>>())
}

fn write(store: &Arc<InMemory>, text: &str, content: &'static [u8]) {
    let store: Store = store.clone();
    save(&store, &at(text), Bytes::from_static(content)).unwrap();
}

fn read(store: &Arc<InMemory>, text: &str) -> Result<Bytes, Fault> {
    let store: Store = store.clone();
    fetch(&store, &at(text))
}

fn lacks(store: &Arc<InMemory>, text: &str) -> bool {
    matches!(read(store, text), Err(Fault::NotFound { .. }))
}

/// The two stores with the cache over them, and the calls that changed the backing store.
struct Fixture {
    remote: Arc<InMemory>,
    cache: Arc<InMemory>,
    state: LocalCacheObjectStore<Store>,
    uploads: Vec<Location>,
    full: bool,
}

impl Fixture {
    fn new(prefix: Option<&str>) -> Fixture {
        let remote = Arc::new(InMemory::new());
        let cache = Arc::new(InMemory::new());
        let state = LocalCacheObjectStore::new(
            remote.clone() as Store,
            cache.clone() as Store,
            prefix.map(at),
        );
        Fixture { remote, cache, state, uploads: Vec::new(), full: false }
    }

    fn drive<A>(
        &mut self,
        first: OperationProgress<Location, Bytes, A, Fault>,
        request: &mut dyn FnMut(&Store) -> Result<A, Fault>,
    ) -> Result<A, Failure> {
        let mut progress = first;
        loop {
            match progress {
                Progress::Finish(result) => return result,
                Progress::Ask(operation, call) => {
                    let reply = match call {
                        Call::Forward(side) => request(self.state.handle(side)).map(Reply::Answer),
                        Call::Fetch(side, location) => {
                            fetch(self.state.handle(side), &location).map(Reply::Payload)
                        }
                        Call::Store(side, location, content) => {
                            assert_eq!(side, Side::Cache);
                            if self.full {
                                Err(Fault::Generic { store: "cache", source: "disk full".into() })
                            } else {
                                save(self.state.handle(side), &location, content)
                                    .map(|_| Reply::Done)
                            }
                        }
                        Call::Probe(side, location) => {
                            let store = self.state.handle(side);
                            block_on(store.head(&path(&location))).map(|_| Reply::Done)
                        }
                        Call::Delete(_, _) | Call::List(_, _) => unreachable!(),
                    };
                    let reply = reply.unwrap_or_else(|fault| Reply::Fault(classified(fault)));
                    progress = operation.advance(&mut self.state, reply);
                }
            }
        }
    }

    fn put(&mut self, text: &str, content: &'static [u8]) -> Result<(), Failure> {
        let location = at(text);
        let target = path(&location);
        let progress = self.state.put_opts(location);
        self.drive(progress, &mut |store| {
            block_on(store.put(&target, PutPayload::from_static(content))).map(|_| ())
        })
    }

    fn get(&mut self, text: &str) -> Result<Bytes, Failure> {
        let location = at(text);
        let target = path(&location);
        let progress = self.state.get_opts(location, false);
        self.drive(progress, &mut |store| {
            block_on(async { store.get(&target).await?.bytes().await })
        })
    }

    fn head(&mut self, text: &str) -> Result<u64, Failure> {
        let location = at(text);
        let target = path(&location);
        let progress = self.state.get_opts(location, true);
        self.drive(progress, &mut |store| {
            let options = GetOptions::new().with_head(true);
            block_on(store.get_opts(&target, options)).map(|result| result.meta.size)
        })
    }

    fn get_ranges(&mut self, text: &str, ranges: &[std::ops::Range<u64>]) -> Result<Vec<Bytes>, Failure> {
        let location = at(text);
        let target = path(&location);
        let progress = self.state.get_ranges(location);
        self.drive(progress, &mut |store| block_on(store.get_ranges(&target, ranges)))
    }

    fn copy(&mut self, from: &str, to: &str) -> Result<(), Failure> {
        let (source, target) = (path(&at(from)), path(&at(to)));
        let progress = self.state.copy_opts(at(from), at(to));
        self.drive(progress, &mut |store| block_on(store.copy(&source, &target)))
    }

    fn rename(&mut self, from: &str, to: &str) -> Result<(), Failure> {
        let (source, target) = (path(&at(from)), path(&at(to)));
        let progress = self.state.rename_opts(at(from), at(to));
        self.drive(progress, &mut |store| block_on(store.rename(&source, &target)))
    }

    fn put_multipart(&mut self, text: &str) -> Result<LocalCacheUpload<Box<dyn MultipartUpload>>, Failure> {
        let location = at(text);
        let target = path(&location);
        let progress = self.state.put_multipart_opts(location.clone());
        let upload = self.drive(progress, &mut |store| block_on(store.put_multipart(&target)))?;
        Ok(LocalCacheUpload::new(upload, location))
    }

    fn complete(&mut self, upload: &mut LocalCacheUpload<Box<dyn MultipartUpload>>) -> Result<(), Failure> {
        let progress = upload.complete(&self.state);
        let parts = &mut upload.upload;
        self.drive(progress, &mut |_| block_on(parts.complete()).map(|_| ()))
    }

    fn delete(&mut self, text: &str) -> Result<Location, Failure> {
        let removals = self.state.delete_stream()?;
        match removals.next(Ok(at(text))) {
            Progress::Finish(result) => result,
            Progress::Ask(removal, Call::Delete(side, location)) => {
                assert_eq!(side, Side::Cache);
                let deleted = block_on(self.state.handle(side).delete(&path(&location)));
                removal.advance(&mut self.state, deleted.map_err(classified))
            }
            _ => unreachable!(),
        }
    }

    fn sync_call(&mut self, call: Call<Location, Bytes>) -> SyncReply<Vec<Location>, Bytes, Fault> {
        let reply = match call {
            Call::Fetch(side, location) => {
                fetch(self.state.handle(side), &location).map(SyncReply::Payload)
            }
            Call::Store(side, location, content) => {
                if side == Side::Remote {
                    self.uploads.push(location.clone());
                }
                save(self.state.handle(side), &location, content).map(|_| SyncReply::Done)
            }
            Call::Delete(side, location) => {
                block_on(self.state.handle(side).delete(&path(&location))).map(|_| SyncReply::Done)
            }
            Call::List(side, prefix) => listed(self.state.handle(side), prefix.as_ref())
                .map(|found| found.iter().map(|meta| location_of(&meta.location)).collect())
                .map(SyncReply::Objects),
            Call::Forward(_) | Call::Probe(_, _) => unreachable!(),
        };
        reply.unwrap_or_else(|fault| SyncReply::Fault(classified(fault)))
    }

    fn commit(&mut self) -> Result<(), Failure> {
        let first = self.state.commit();
        self.go_on(first)
    }

    fn go_on(&mut self, first: CommitProgress<Commit, Location, Bytes, Fault>) -> Result<(), Failure> {
        let mut progress = first;
        loop {
            match progress {
                Progress::Finish(result) => return result,
                Progress::Ask(commit, call) => {
                    let reply = self.sync_call(call);
                    progress = commit.advance(&mut self.state, reply);
                }
            }
        }
    }

    fn pull(&mut self) -> Result<(), Failure> {
        let mut progress = self.state.pull();
        loop {
            match progress {
                Progress::Finish(result) => return result,
                Progress::Ask(pull, call) => {
                    let reply = self.sync_call(call);
                    progress = pull.advance(&self.state, reply);
                }
            }
        }
    }

    fn list(&mut self, prefix: Option<&str>) -> Result<Vec<(String, u64)>, Failure> {
        let mut progress = self.state.list(prefix.map(at));
        loop {
            match progress {
                Progress::Finish(result) => {
                    return result.map(|entries| {
                        entries
                            .into_iter()
                            .map(|entry| (entry.location.as_str().to_string(), entry.value))
                            .collect()
                    });
                }
                Progress::Ask(listing, Call::List(side, prefix)) => {
                    let reply = listed(self.state.handle(side), prefix.as_ref())
                        .map(entries)
                        .map_err(classified);
                    progress = listing.advance(reply);
                }
                _ => unreachable!(),
            }
        }
    }

    fn list_with_delimiter(&mut self, prefix: Option<&str>) -> Result<Directory<u64>, Failure> {
        let own = prefix.map(|prefix| path(&at(prefix)));
        let mut progress = self.state.list_with_delimiter();
        loop {
            match progress {
                Progress::Finish(result) => return result,
                Progress::Ask(listing, call) => {
                    let reply = match call {
                        Call::Forward(side) => {
                            block_on(self.state.handle(side).list_with_delimiter(own.as_ref())).map(
                                |level| {
                                    DirectoryReply::Level(Directory {
                                        objects: entries(level.objects),
                                        common_prefixes: level
                                            .common_prefixes
                                            .iter()
                                            .map(location_of)
                                            .collect(),
                                    })
                                },
                            )
                        }
                        Call::List(side, prefix) => listed(self.state.handle(side), prefix.as_ref())
                            .map(|found| {
                                found.iter().map(|meta| location_of(&meta.location)).collect()
                            })
                            .map(DirectoryReply::Objects),
                        _ => unreachable!(),
                    };
                    let reply =
                        reply.unwrap_or_else(|fault| DirectoryReply::Fault(classified(fault)));
                    progress = listing.advance(reply);
                }
            }
        }
    }
}

fn entries(found: Vec<ObjectMeta>) -> Vec<Entry<u64>> {
    found
        .into_iter()
        .map(|meta| Entry { location: location_of(&meta.location), value: meta.size })
        .collect()
}

fn prefixes(level: &Directory<u64>) -> Vec<&str> {
    level.common_prefixes.iter().map(Location::as_str).collect()
}

fn is_closed<T>(result: Result<T, Failure>) -> bool {
    matches!(
        result,
        Err(Error::Generic { store: "LocalCacheObjectStore", source: "local cache is closed" })
    )
}

fn is_deleted<T>(result: Result<T, Failure>, text: &str) -> bool {
    match result {
        Err(Error::NotFound { path, source }) => {
            path.as_str() == text && source == "object was deleted in local cache"
        }
        _ => false,
    }
}

fn is_missing<T>(result: Result<T, Failure>) -> bool {
    matches!(result, Err(Error::Store(StoreError::NotFound(Fault::NotFound { .. }))))
}

#[test]
fn test_local_cache_reads_populate_and_commit_writes() {
    let mut store = Fixture::new(None);
    let location = "bucket/prefix/table.lance/data.bin";

    write(&store.remote, location, b"remote");

    let bytes = store.get(location).unwrap();
    assert_eq!(bytes.as_ref(), b"remote");
    assert_eq!(read(&store.cache, location).unwrap().as_ref(), b"remote");

    store.put(location, b"local").unwrap();
    assert_eq!(read(&store.remote, location).unwrap().as_ref(), b"remote");

    store.commit().unwrap();
    assert_eq!(read(&store.remote, location).unwrap().as_ref(), b"local");
}

#[test]
fn test_local_cache_commit_deletes_and_close_fails() {
    let mut store = Fixture::new(None);
    let location = "bucket/prefix/table.lance/delete.bin";

    write(&store.remote, location, b"remote");
    store.delete(location).unwrap();
    assert!(read(&store.remote, location).is_ok());

    store.commit().unwrap();
    assert!(lacks(&store.remote, location));

    store.state.close::<Fault>().unwrap();
    assert!(matches!(
        store.commit(),
        Err(Error::Generic { store, .. }) if store == "LocalCacheObjectStore"
    ));
}

#[test]
fn test_local_cache_commit_uploads_payloads_before_publication_files() {
    let mut store = Fixture::new(None);
    let payload = "bucket/table.lance/data/part-0.lance";
    let metadata = "bucket/table.lance/_metadata/schema.pb";
    let latest = "bucket/table.lance/_latest.manifest";
    let version = "bucket/table.lance/_versions/2.manifest";

    store.put(version, b"version").unwrap();
    store.put(latest, b"latest").unwrap();
    store.put(metadata, b"metadata").unwrap();
    store.put(payload, b"payload").unwrap();

    store.commit().unwrap();

    let puts = &store.uploads;
    assert_eq!(
        puts.iter().map(LocalCacheObjectStore::commit_order).collect::<Vec<_>>(),
        vec![0, 1, 2, 2]
    );
    assert_eq!(puts[0].as_str(), payload);
    assert_eq!(puts[1].as_str(), metadata);
}

#[test]
fn test_local_cache_pull_prunes_clean_stale_entries_only() {
    let mut store = Fixture::new(Some("bucket/prefix"));
    let remote_path = "bucket/prefix/remote.bin";
    let stale_path = "bucket/prefix/stale.bin";
    let dirty_path = "bucket/prefix/dirty.bin";
    let deleted_path = "bucket/prefix/deleted.bin";
    let outside_prefix = "bucket/other/stale.bin";

    write(&store.remote, remote_path, b"remote");
    write(&store.remote, deleted_path, b"deleted");
    write(&store.cache, stale_path, b"stale");
    write(&store.cache, outside_prefix, b"outside");
    store.put(dirty_path, b"dirty").unwrap();
    store.delete(deleted_path).unwrap();

    store.pull().unwrap();

    assert_eq!(read(&store.cache, remote_path).unwrap().as_ref(), b"remote");
    assert!(lacks(&store.cache, stale_path));
    assert_eq!(read(&store.cache, dirty_path).unwrap().as_ref(), b"dirty");
    assert!(matches!(store.get(deleted_path), Err(Error::NotFound { .. })));
    assert!(read(&store.cache, outside_prefix).is_ok());
}

#[test]
fn test_local_cache_commit_preserves_same_path_dirty_race() {
    let mut store = Fixture::new(None);
    let location = "bucket/prefix/race.bin";

    store.put(location, b"first").unwrap();

    // The commit comes to a halt once its first upload is carried out.
    let mut progress = store.state.commit();
    while store.uploads.is_empty() {
        progress = match progress {
            Progress::Finish(_) => unreachable!(),
            Progress::Ask(commit, call) => {
                let reply = store.sync_call(call);
                if store.uploads.is_empty() {
                    commit.advance(&mut store.state, reply)
                } else {
                    store.put(location, b"second").unwrap();
                    commit.advance(&mut store.state, reply)
                }
            }
        };
    }
    store.go_on(progress).unwrap();

    assert_eq!(read(&store.remote, location).unwrap().as_ref(), b"first");

    store.commit().unwrap();
    assert_eq!(read(&store.remote, location).unwrap().as_ref(), b"second");
}

#[test]
fn test_local_cache_list_with_delimiter_hides_deleted_remote_prefixes() {
    let mut store = Fixture::new(None);
    let table_file = "dropped.lance/data/part-0.lance";
    write(&store.remote, table_file, b"remote");

    let before_delete = store.list_with_delimiter(None).unwrap();
    assert!(prefixes(&before_delete).contains(&"dropped.lance"));

    store.delete(table_file).unwrap();

    let after_delete = store.list_with_delimiter(None).unwrap();
    assert!(!prefixes(&after_delete).contains(&"dropped.lance"));
}

#[test]
fn option_name_and_concurrency() {
    assert_eq!(LOCAL_CACHE_DIR_OPTION, "localcachedir");
    assert_eq!(DELETE_CONCURRENCY, 10);
}

#[test]
fn read_prefers_the_cache() {
    let mut store = Fixture::new(None);
    write(&store.remote, "a/x", b"old");
    store.put("a/x", b"new").unwrap();
    assert_eq!(store.get("a/x").unwrap().as_ref(), b"new");
    assert_eq!(read(&store.remote, "a/x").unwrap().as_ref(), b"old");
    assert_eq!(store.state.dirty_snapshot().get(&at("a/x")), Some(&1));
}

#[test]
fn read_of_a_missing_object_reports_what_the_backing_store_reports() {
    let mut store = Fixture::new(None);
    assert!(is_missing(store.get("a/none")));
    assert!(is_missing(store.head("a/none")));
    assert!(is_missing(store.get_ranges("a/none", &[0..1])));
    assert!(is_missing(store.copy("a/none", "a/to")));
    assert!(is_missing(store.rename("a/none", "a/to")));
    assert!(store.state.dirty_snapshot().keys().is_empty());
    assert!(store.state.deleted_snapshot().keys().is_empty());
}

#[test]
fn head_reads_the_backing_store_without_a_copy() {
    let mut store = Fixture::new(None);
    write(&store.remote, "a/x", b"12345");
    assert_eq!(store.head("a/x").unwrap(), 5);
    assert!(lacks(&store.cache, "a/x"));
    write(&store.cache, "a/x", b"123");
    assert_eq!(store.head("a/x").unwrap(), 3);
}

#[test]
fn ranges_are_read_through_the_cache() {
    let mut store = Fixture::new(None);
    write(&store.remote, "a/x", b"abcdef");
    let ranges = store.get_ranges("a/x", &[1..3, 4..6]).unwrap();
    assert_eq!(ranges, vec![Bytes::from_static(b"bc"), Bytes::from_static(b"ef")]);
    assert_eq!(read(&store.cache, "a/x").unwrap().as_ref(), b"abcdef");
    assert!(store.state.dirty_snapshot().keys().is_empty());
}

#[test]
fn deleted_object_reads_as_deleted_though_the_backing_store_holds_it() {
    let mut store = Fixture::new(None);
    write(&store.remote, "a/x", b"remote");
    store.get("a/x").unwrap();
    assert_eq!(store.delete("a/x").unwrap().as_str(), "a/x");
    assert!(lacks(&store.cache, "a/x"));
    assert!(is_deleted(store.get("a/x"), "a/x"));
    assert!(is_deleted(store.head("a/x"), "a/x"));
    assert!(is_deleted(store.get_ranges("a/x", &[0..1]), "a/x"));
    assert!(is_deleted(store.copy("a/x", "a/y"), "a/x"));
    assert!(is_deleted(store.rename("a/x", "a/y"), "a/x"));
    assert!(read(&store.remote, "a/x").is_ok());

    store.put("a/x", b"again").unwrap();
    assert_eq!(store.get("a/x").unwrap().as_ref(), b"again");
    assert!(!store.state.is_deleted(&at("a/x")));
}

#[test]
fn deletion_of_an_object_that_no_store_holds_succeeds() {
    let mut store = Fixture::new(None);
    assert_eq!(store.delete("a/none").unwrap().as_str(), "a/none");
    assert!(store.state.is_deleted(&at("a/none")));
    store.commit().unwrap();
    assert!(!store.state.is_deleted(&at("a/none")));
}

#[test]
fn deletion_that_fails_records_nothing() {
    let mut store = Fixture::new(None);
    let removals = store.state.delete_stream::<&str>().unwrap();
    match removals.next::<&str>(Ok(at("a/x"))) {
        Progress::Ask(removal, _) => {
            let result = removal.advance(&mut store.state, Err(StoreError::Other("disk")));
            assert!(matches!(result, Err(Error::Store(StoreError::Other("disk")))));
        }
        Progress::Finish(_) => unreachable!(),
    }
    assert!(!store.state.is_deleted(&at("a/x")));
    assert!(matches!(
        removals.next(Err(StoreError::Other("stream"))),
        Progress::Finish(Err(Error::Store(StoreError::Other("stream"))))
    ));
}

#[test]
fn copy_brings_the_source_into_the_cache() {
    let mut store = Fixture::new(None);
    write(&store.remote, "a/from", b"content");
    store.copy("a/from", "a/to").unwrap();
    assert_eq!(read(&store.cache, "a/from").unwrap().as_ref(), b"content");
    assert_eq!(store.get("a/to").unwrap().as_ref(), b"content");
    assert!(lacks(&store.remote, "a/to"));
    assert!(store.state.dirty_snapshot().contains_key(&at("a/to")));
    assert!(!store.state.dirty_snapshot().contains_key(&at("a/from")));
    store.commit().unwrap();
    assert_eq!(read(&store.remote, "a/to").unwrap().as_ref(), b"content");
    assert_eq!(read(&store.remote, "a/from").unwrap().as_ref(), b"content");
}

#[test]
fn rename_moves_the_object() {
    let mut store = Fixture::new(None);
    write(&store.remote, "a/from", b"content");
    store.rename("a/from", "a/to").unwrap();
    assert!(is_deleted(store.get("a/from"), "a/from"));
    assert_eq!(store.get("a/to").unwrap().as_ref(), b"content");
    assert_eq!(store.state.deleted_snapshot().get(&at("a/from")), Some(&1));
    assert_eq!(store.state.dirty_snapshot().get(&at("a/to")), Some(&2));
    store.commit().unwrap();
    assert!(lacks(&store.remote, "a/from"));
    assert_eq!(read(&store.remote, "a/to").unwrap().as_ref(), b"content");
}

#[test]
fn write_in_parts_counts_once_it_is_completed() {
    let mut store = Fixture::new(None);
    let mut upload = store.put_multipart("a/x").unwrap();
    block_on(upload.upload.put_part(PutPayload::from_static(b"con"))).unwrap();
    block_on(upload.upload.put_part(PutPayload::from_static(b"tent"))).unwrap();
    assert!(is_missing(store.get("a/x")));
    assert!(store.state.dirty_snapshot().keys().is_empty());
    store.complete(&mut upload).unwrap();
    assert_eq!(store.get("a/x").unwrap().as_ref(), b"content");
    assert!(store.state.dirty_snapshot().contains_key(&at("a/x")));
}

#[test]
fn write_in_parts_is_refused_after_closing() {
    let mut store = Fixture::new(None);
    let mut upload = store.put_multipart("a/x").unwrap();
    assert!(upload.put_part::<_, Fault>(&store.state).is_ok());
    block_on(upload.upload.put_part(PutPayload::from_static(b"content"))).unwrap();
    store.state.close::<Fault>().unwrap();
    assert!(is_closed(upload.put_part(&store.state)));
    assert!(is_closed(store.complete(&mut upload)));
    assert!(lacks(&store.cache, "a/x"));
    assert!(store.state.dirty_snapshot().keys().is_empty());
}

#[test]
fn deleted_object_reads_as_deleted_though_the_cache_holds_it() {
    let mut store = Fixture::new(None);
    store.delete("a.bin").unwrap();
    write(&store.cache, "a.bin", b"x");
    assert!(is_deleted(store.get("a.bin"), "a.bin"));
    assert!(is_deleted(store.head("a.bin"), "a.bin"));
    assert!(is_deleted(store.get_ranges("a.bin", &[0..1]), "a.bin"));
    assert!(is_deleted(store.copy("a.bin", "b.bin"), "a.bin"));
    assert!(is_deleted(store.rename("a.bin", "b.bin"), "a.bin"));
    assert!(store.list(None).unwrap().is_empty());
    assert!(store.state.is_deleted(&at("a.bin")));
}

#[test]
fn object_deleted_during_a_read_stays_deleted() {
    let mut store = Fixture::new(None);
    write(&store.remote, "a.bin", b"x");
    let mut progress = store.state.get_opts::<Bytes, (), Fault>(at("a.bin"), false);
    loop {
        progress = match progress {
            Progress::Ask(operation, Call::Forward(Side::Cache)) => {
                let fault = read(&store.cache, "a.bin").unwrap_err();
                operation.advance(&mut store.state, Reply::Fault(classified(fault)))
            }
            Progress::Ask(operation, Call::Fetch(Side::Remote, location)) => {
                let content = fetch(store.state.handle(Side::Remote), &location).unwrap();
                operation.advance(&mut store.state, Reply::Payload(content))
            }
            Progress::Ask(_, Call::Store(Side::Cache, location, content)) => {
                store.delete("a.bin").unwrap();
                save(store.state.handle(Side::Cache), &location, content).unwrap();
                break;
            }
            _ => unreachable!(),
        };
    }
    assert!(read(&store.cache, "a.bin").is_ok());
    assert!(is_deleted(store.get("a.bin"), "a.bin"));
}

#[test]
fn read_succeeds_where_the_cache_is_full() {
    let mut store = Fixture::new(None);
    write(&store.remote, "a/x", b"abcdef");
    store.full = true;
    assert_eq!(store.get("a/x").unwrap().as_ref(), b"abcdef");
    let ranges = store.get_ranges("a/x", &[1..3]).unwrap();
    assert_eq!(ranges, vec![Bytes::from_static(b"bc")]);
    assert!(lacks(&store.cache, "a/x"));
    assert!(matches!(
        store.copy("a/x", "a/y"),
        Err(Error::Store(StoreError::Other(Fault::Generic { .. })))
    ));
    assert!(matches!(
        store.rename("a/x", "a/y"),
        Err(Error::Store(StoreError::Other(Fault::Generic { .. })))
    ));
    assert!(store.state.dirty_snapshot().keys().is_empty());
    store.full = false;
    assert_eq!(store.get("a/x").unwrap().as_ref(), b"abcdef");
    assert_eq!(read(&store.cache, "a/x").unwrap().as_ref(), b"abcdef");
}

#[test]
fn both_listings_show_the_same_objects() {
    let mut store = Fixture::new(None);
    for text in ["db/file", "db/gone", "db/t/1", "db/t/2", "db/u/v/1", "other"] {
        write(&store.remote, text, b"1");
    }
    store.put("db/t/3", b"1").unwrap();
    store.put("db/new", b"1").unwrap();
    store.delete("db/gone").unwrap();
    store.delete("db/u/v/1").unwrap();
    let all: Vec<String> =
        store.list(Some("db")).unwrap().into_iter().map(|(text, _)| text).collect();
    let mut walked = Vec::new();
    let mut todo = vec!["db".to_string()];
    while let Some(prefix) = todo.pop() {
        let level = store.list_with_delimiter(Some(&prefix)).unwrap();
        walked.extend(level.objects.iter().map(|entry| entry.location.as_str().to_string()));
        todo.extend(prefixes(&level).iter().map(|child| child.to_string()));
    }
    walked.sort();
    assert_eq!(walked, all);
    assert_eq!(all, vec!["db/file", "db/new", "db/t/1", "db/t/2", "db/t/3"]);
}

#[test]
fn prefix_that_both_stores_name_is_shown_once() {
    let mut store = Fixture::new(None);
    write(&store.remote, "t/1", b"1");
    store.put("t/2", b"1").unwrap();
    assert_eq!(prefixes(&store.list_with_delimiter(None).unwrap()), vec!["t"]);
}

#[test]
fn closed_cache_refuses_everything_and_uploads_nothing() {
    let mut store = Fixture::new(None);
    write(&store.remote, "a/x", b"remote");
    store.put("a/x", b"local").unwrap();
    store.state.close::<Fault>().unwrap();
    assert!(is_closed(store.put("a/x", b"other")));
    assert!(is_closed(store.put_multipart("a/x").map(|_| ())));
    assert!(is_closed(store.get("a/x")));
    assert!(is_closed(store.head("a/x")));
    assert!(is_closed(store.get_ranges("a/x", &[0..1])));
    assert!(is_closed(store.copy("a/x", "a/y")));
    assert!(is_closed(store.rename("a/x", "a/y")));
    assert!(is_closed(store.delete("a/x")));
    assert!(is_closed(store.list(None)));
    assert!(is_closed(store.list_with_delimiter(None)));
    assert!(is_closed(store.pull()));
    assert!(is_closed(store.commit()));
    assert!(is_closed(store.state.check_open::<Fault>()));
    assert!(is_closed::<()>(Err(LocalCacheObjectStore::<Store>::closed_error())));
    assert_eq!(read(&store.remote, "a/x").unwrap().as_ref(), b"remote");
    assert!(store.state.dirty_snapshot().contains_key(&at("a/x")));
}

#[test]
fn commit_applies_every_change_and_nothing_else() {
    let mut store = Fixture::new(None);
    write(&store.remote, "t/kept", b"kept");
    write(&store.remote, "t/changed", b"old");
    write(&store.remote, "t/dropped", b"old");
    store.get("t/kept").unwrap();
    write(&store.remote, "t/kept", b"changed elsewhere");
    store.put("t/changed", b"new").unwrap();
    store.put("t/added", b"new").unwrap();
    store.delete("t/dropped").unwrap();
    store.commit().unwrap();
    assert_eq!(read(&store.remote, "t/kept").unwrap().as_ref(), b"changed elsewhere");
    assert_eq!(read(&store.remote, "t/changed").unwrap().as_ref(), b"new");
    assert_eq!(read(&store.remote, "t/added").unwrap().as_ref(), b"new");
    assert!(lacks(&store.remote, "t/dropped"));
    assert_eq!(store.get("t/changed").unwrap().as_ref(), b"new");
    assert!(store.state.dirty_snapshot().keys().is_empty());
    assert!(store.state.deleted_snapshot().keys().is_empty());
}

#[test]
fn commit_without_changes_makes_no_call() {
    let mut store = Fixture::new(None);
    store.put("t/x", b"new").unwrap();
    store.commit().unwrap();
    let again: CommitProgress<Commit, Location, Bytes, Fault> = store.state.commit();
    assert!(matches!(again, Progress::Finish(Ok(()))));
}

#[test]
fn commit_takes_its_turns_by_rank_and_text() {
    let mut store = Fixture::new(None);
    for text in ["t/b", "t/_versions/1", "t/_indices/i", "t/a", "t/_transactions/0", "t/_latest"] {
        store.put(text, b"x").unwrap();
    }
    store.delete("t/z").unwrap();
    store.delete("t/c").unwrap();
    let mut calls = Vec::new();
    let mut progress = store.state.commit::<Bytes, Fault>();
    loop {
        match progress {
            Progress::Finish(result) => {
                result.unwrap();
                break;
            }
            Progress::Ask(commit, call) => {
                match &call {
                    Call::Store(Side::Remote, location, _) => {
                        calls.push(format!("put {}", location.as_str()))
                    }
                    Call::Delete(Side::Remote, location) => {
                        calls.push(format!("delete {}", location.as_str()))
                    }
                    _ => {}
                }
                let reply = store.sync_call(call);
                progress = commit.advance(&mut store.state, reply);
            }
        }
    }
    assert_eq!(
        calls,
        vec![
            "put t/a",
            "put t/b",
            "put t/_indices/i",
            "put t/_transactions/0",
            "put t/_latest",
            "put t/_versions/1",
            "delete t/c",
            "delete t/z",
        ]
    );
}

#[test]
fn commit_cut_short_has_published_nothing() {
    let mut store = Fixture::new(None);
    for text in ["t/_versions/1.manifest", "t/data/0", "t/data/1", "t/_metadata/m"] {
        store.put(text, b"x").unwrap();
    }
    let mut progress = store.state.commit();
    while store.uploads.len() < 3 {
        progress = match progress {
            Progress::Finish(_) => unreachable!(),
            Progress::Ask(commit, call) => {
                let reply = store.sync_call(call);
                commit.advance(&mut store.state, reply)
            }
        };
    }
    let sent: Vec<_> = store.uploads.iter().map(Location::as_str).collect();
    assert_eq!(sent, vec!["t/data/0", "t/data/1", "t/_metadata/m"]);
    assert!(lacks(&store.remote, "t/_versions/1.manifest"));
    assert_eq!(store.state.dirty_snapshot().keys().len(), 4);
}

#[test]
fn failed_commit_forgets_nothing() {
    let mut store = Fixture::new(None);
    store.put("t/a", b"a").unwrap();
    store.put("t/b", b"b").unwrap();
    let mut progress = store.state.commit::<Bytes, &str>();
    let mut uploads = 0;
    let failure = loop {
        match progress {
            Progress::Finish(result) => break result,
            Progress::Ask(commit, call) => {
                let reply = match call {
                    Call::Fetch(_, _) => SyncReply::Payload(Bytes::from_static(b"x")),
                    _ => {
                        uploads += 1;
                        if uploads == 2 {
                            SyncReply::Fault(StoreError::Other("network"))
                        } else {
                            SyncReply::Done
                        }
                    }
                };
                progress = commit.advance(&mut store.state, reply);
            }
        }
    };
    assert!(matches!(failure, Err(Error::Store(StoreError::Other("network")))));
    assert_eq!(store.state.dirty_snapshot().keys().len(), 2);
    store.commit().unwrap();
    assert_eq!(read(&store.remote, "t/a").unwrap().as_ref(), b"a");
    assert_eq!(read(&store.remote, "t/b").unwrap().as_ref(), b"b");
}

#[test]
fn failed_upload_is_not_tolerated_though_the_object_is_missing() {
    let mut store = Fixture::new(None);
    store.put("t/a", b"a").unwrap();
    match store.state.commit::<Bytes, &str>() {
        Progress::Ask(commit, Call::Fetch(Side::Cache, location)) => {
            assert_eq!(location.as_str(), "t/a");
            let reply: SyncReply<Vec<Location>, Bytes, &str> =
                SyncReply::Fault(StoreError::NotFound("gone"));
            assert!(matches!(
                commit.advance(&mut store.state, reply),
                Progress::Finish(Err(Error::Store(StoreError::NotFound("gone"))))
            ));
        }
        _ => unreachable!(),
    }
}

#[test]
fn deletion_during_a_commit_stays_to_be_committed() {
    let mut store = Fixture::new(None);
    store.put("t/a", b"a").unwrap();
    let first = store.state.commit();
    store.delete("t/b").unwrap();
    store.go_on(first).unwrap();
    assert!(store.state.dirty_snapshot().keys().is_empty());
    assert!(store.state.is_deleted(&at("t/b")));
}

#[test]
fn operation_that_fails_records_nothing() {
    let mut store = Fixture::new(None);
    match store.state.put_opts::<Bytes, (), &str>(at("t/a")) {
        Progress::Ask(operation, Call::Forward(Side::Cache)) => {
            let reply: Reply<Bytes, (), &str> = Reply::Fault(StoreError::Other("disk"));
            assert!(matches!(
                operation.advance(&mut store.state, reply),
                Progress::Finish(Err(Error::Store(StoreError::Other("disk"))))
            ));
        }
        _ => unreachable!(),
    }
    assert!(store.state.dirty_snapshot().keys().is_empty());
    match store.state.put_opts::<Bytes, (), &str>(at("t/a")) {
        Progress::Ask(operation, _) => {
            let reply: Reply<Bytes, (), &str> = Reply::Fault(StoreError::NotFound("bucket"));
            assert!(matches!(
                operation.advance(&mut store.state, reply),
                Progress::Finish(Err(Error::Store(StoreError::NotFound("bucket"))))
            ));
        }
        Progress::Finish(_) => unreachable!(),
    }
}

#[test]
fn pull_refreshes_clean_objects_and_keeps_changes() {
    let mut store = Fixture::new(Some("db"));
    write(&store.remote, "db/a", b"one");
    store.get("db/a").unwrap();
    write(&store.remote, "db/a", b"two");
    write(&store.remote, "db/b", b"remote");
    write(&store.remote, "other/c", b"outside");
    store.put("db/b", b"local").unwrap();
    assert_eq!(store.get("db/a").unwrap().as_ref(), b"one");
    store.pull().unwrap();
    assert_eq!(store.get("db/a").unwrap().as_ref(), b"two");
    assert_eq!(store.get("db/b").unwrap().as_ref(), b"local");
    assert!(lacks(&store.cache, "other/c"));
    assert_eq!(read(&store.remote, "db/b").unwrap().as_ref(), b"remote");
    assert_eq!(store.state.sync_prefix().unwrap().as_str(), "db");
}

#[test]
fn second_pull_changes_nothing() {
    let mut store = Fixture::new(Some("db"));
    write(&store.remote, "db/a", b"one");
    write(&store.cache, "db/stale", b"two");
    store.pull().unwrap();
    let cache: Store = store.cache.clone();
    let once = listed(&cache, None).unwrap().len();
    store.pull().unwrap();
    assert_eq!(listed(&cache, None).unwrap().len(), once);
    assert_eq!(once, 1);
    assert_eq!(read(&store.cache, "db/a").unwrap().as_ref(), b"one");
}

#[test]
fn pull_tolerates_that_a_stale_object_is_gone() {
    let store = Fixture::new(None);
    let mut progress = store.state.pull::<Bytes, &str>();
    let mut listings = vec![vec![], vec![at("stale")]].into_iter();
    loop {
        progress = match progress {
            Progress::Finish(result) => {
                result.unwrap();
                break;
            }
            Progress::Ask(pull, Call::List(_, _)) => {
                pull.advance(&store.state, SyncReply::Objects(listings.next().unwrap()))
            }
            Progress::Ask(pull, Call::Delete(Side::Cache, location)) => {
                assert_eq!(location.as_str(), "stale");
                pull.advance(&store.state, SyncReply::Fault(StoreError::NotFound("gone")))
            }
            _ => unreachable!(),
        };
    }
}

#[test]
fn pull_fails_where_a_store_fails() {
    let store = Fixture::new(None);
    match store.state.pull::<Bytes, &str>() {
        Progress::Ask(pull, Call::List(Side::Remote, None)) => {
            let reply: SyncReply<Vec<Location>, Bytes, &str> =
                SyncReply::Fault(StoreError::NotFound("bucket"));
            assert!(matches!(
                pull.advance(&store.state, reply),
                Progress::Finish(Err(Error::Store(StoreError::NotFound("bucket"))))
            ));
        }
        _ => unreachable!(),
    }
}

#[test]
fn list_merges_both_stores_without_deleted_objects() {
    let mut store = Fixture::new(None);
    write(&store.remote, "t/both", b"1");
    write(&store.remote, "t/remote", b"22");
    write(&store.remote, "t/deleted", b"333");
    write(&store.remote, "u/outside", b"4444");
    store.put("t/both", b"55555").unwrap();
    store.put("t/added", b"666666").unwrap();
    store.delete("t/deleted").unwrap();
    assert_eq!(
        store.list(Some("t")).unwrap(),
        vec![
            ("t/added".to_string(), 6),
            ("t/both".to_string(), 5),
            ("t/remote".to_string(), 2),
        ]
    );
    assert_eq!(store.list(None).unwrap().len(), 4);
    assert!(store.list(Some("none")).unwrap().is_empty());
}

#[test]
fn list_with_delimiter_merges_both_stores() {
    let mut store = Fixture::new(None);
    write(&store.remote, "db/z.lance/1", b"1");
    write(&store.remote, "db/dropped.lance/1", b"1");
    write(&store.remote, "db/file", b"1");
    write(&store.remote, "db/deleted", b"1");
    store.put("db/a.lance/1", b"1").unwrap();
    store.put("db/z.lance/2", b"1").unwrap();
    store.put("db/file", b"22").unwrap();
    store.delete("db/dropped.lance/1").unwrap();
    store.delete("db/deleted").unwrap();
    let level = store.list_with_delimiter(Some("db")).unwrap();
    assert_eq!(prefixes(&level), vec!["db/a.lance", "db/z.lance"]);
    let objects: Vec<_> =
        level.objects.iter().map(|entry| (entry.location.as_str(), entry.value)).collect();
    assert_eq!(objects, vec![("db/file", 2)]);
}

#[test]
fn prefix_with_one_visible_object_stays() {
    let mut store = Fixture::new(None);
    write(&store.remote, "t/1", b"1");
    write(&store.remote, "t/2", b"1");
    store.delete("t/1").unwrap();
    let level = store.list_with_delimiter(None).unwrap();
    assert_eq!(prefixes(&level), vec!["t"]);
    let deleted = store.state.deleted_snapshot();
    assert!(LocalCacheObjectStore::has_visible_descendants(&vec![at("t/1"), at("t/2")], &deleted));
    assert!(!LocalCacheObjectStore::has_visible_descendants(&vec![at("t/1")], &deleted));
    assert!(!LocalCacheObjectStore::has_visible_descendants(&vec![], &deleted));
}

#[test]
fn listing_fails_where_a_store_fails() {
    let store = Fixture::new(None);
    match store.state.list::<u64, &str>(Some(at("t"))) {
        Progress::Ask(listing, Call::List(Side::Remote, Some(prefix))) => {
            assert_eq!(prefix.as_str(), "t");
            assert!(matches!(
                listing.advance(Err(StoreError::Other("network"))),
                Progress::Finish(Err(Error::Store(StoreError::Other("network"))))
            ));
        }
        _ => unreachable!(),
    }
    match store.state.list_with_delimiter::<u64, &str>() {
        Progress::Ask(listing, Call::Forward(Side::Remote)) => assert!(matches!(
            listing.advance(DirectoryReply::Fault(StoreError::Other("network"))),
            Progress::Finish(Err(Error::Store(StoreError::Other("network"))))
        )),
        _ => unreachable!(),
    }
}

#[test]
fn changes_are_counted_and_kept_apart() {
    let mut store = Fixture::new(None);
    store.state.mark_dirty(at("a"));
    store.state.mark_deleted(at("b"));
    store.state.mark_deleted(at("a"));
    store.state.mark_dirty(at("b"));
    assert_eq!(store.state.dirty_snapshot().get(&at("b")), Some(&4));
    assert_eq!(store.state.dirty_snapshot().get(&at("a")), None);
    assert_eq!(store.state.deleted_snapshot().get(&at("a")), Some(&3));
    assert_eq!(store.state.deleted_snapshot().get(&at("b")), None);
    assert_eq!(store.state.next_change_generation(), 5);
}

#[test]
fn forgets_only_the_generation_that_was_committed() {
    let mut store = Fixture::new(None);
    store.state.mark_dirty(at("a"));
    store.state.mark_dirty(at("b"));
    store.state.mark_deleted(at("c"));
    let dirty = store.state.dirty_snapshot();
    let deleted = store.state.deleted_snapshot();
    store.state.mark_dirty(at("a"));
    store.state.forget_committed(&dirty, &deleted);
    assert_eq!(store.state.dirty_snapshot().get(&at("a")), Some(&4));
    assert_eq!(store.state.dirty_snapshot().keys().len(), 1);
    assert!(store.state.deleted_snapshot().keys().is_empty());
}

#[test]
fn commit_order_ranks_payload_metadata_and_publication() {
    let rank = |text: &str| LocalCacheObjectStore::commit_order(&at(text));
    assert_eq!(rank("t/data/part-0.lance"), 0);
    assert_eq!(rank("t/_latestish/x"), 2);
    assert_eq!(rank("t/_versions/1"), 2);
    assert_eq!(rank("_versions/1"), 2);
    assert_eq!(rank("t/_versions"), 2);
    assert_eq!(rank("_versions_old"), 2);
    assert_eq!(rank("t/7.manifest"), 2);
    assert_eq!(rank("t/manifests"), 2);
    assert_eq!(rank("t/manifest/x"), 0);
    assert_eq!(rank("t/the_version"), 2);
    assert_eq!(rank("t/version/x"), 0);
    assert_eq!(rank("t/_metadata/x"), 1);
    assert_eq!(rank("t/metadata.json"), 1);
    assert_eq!(rank("t/metadata/x"), 0);
    assert_eq!(rank("t/_transactions/x"), 1);
    assert_eq!(rank("t/_indices/x"), 1);
    assert_eq!(rank("t/_indices/version"), 2);
    assert_eq!(rank(""), 0);
}

#[test]
fn populating_asks_the_backing_store_unless_the_object_was_deleted() {
    let mut store = Fixture::new(None);
    match store.state.populate_from_remote::<Bytes, Fault>(&at("a")) {
        Ok(Call::Fetch(Side::Remote, location)) => assert_eq!(location.as_str(), "a"),
        _ => unreachable!(),
    }
    store.state.mark_deleted(at("a"));
    assert!(is_deleted(store.state.populate_from_remote::<Bytes, Fault>(&at("a")), "a"));
}

#[test]
fn wrapper_hands_out_the_cached_store() {
    let cached = Arc::new(LocalCacheObjectStore::new(1, 2, None));
    let wrapper = LocalCacheObjectStoreWrapper::new(cached.clone());
    let wrapped = wrapper.wrap("s3", 3);
    assert!(Arc::ptr_eq(&wrapped, &cached));
    assert_eq!(*wrapped.handle(Side::Remote), 1);
    assert_eq!(*wrapped.handle(Side::Cache), 2);
}

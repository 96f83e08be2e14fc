use std::sync::Arc;

use bytes::Bytes;
use futures::executor::block_on;
use object_store::memory::InMemory;
use object_store::path::Path;
use object_store::{MultipartUpload, ObjectStore, ObjectStoreExt, PutPayload};
use object_store_wrappers::location::Location;
use object_store_wrappers::mirror::{
    BegunUpload, DeleteProgress, MirrorMultipart, MirroringObjectStore, MultipartProgress, Tier,
    WriteProgress,
};
use object_store_wrappers::protocol::{Progress, StoreError};
use object_store_wrappers::wrapper::MirroringObjectStoreWrapper;

type Store = Arc<dyn ObjectStore>;
type Fault = object_store::Error;

fn at(text: &str) -> Location {
    Location::parse(text).unwrap()
}

fn path(text: &str) -> Path {
    Path::parse(text).unwrap()
}

fn read(store: &Store, text: &str) -> Option<Bytes> {
    block_on(async { store.get(&path(text)).await?.bytes().await }).ok()
}

fn classified(fault: Fault) -> StoreError<Fault> {
    match fault {
        Fault::NotFound { .. } => StoreError::NotFound(fault),
        _ => StoreError::Other(fault),
    }
}

fn write<A, E>(
    first: WriteProgress<A, E>,
    request: &mut dyn FnMut(Tier) -> Result<A, E>,
) -> Result<A, E> {
    let mut progress = first;
    loop {
        match progress {
            Progress::Finish(result) => return result,
            Progress::Ask(write, tier) => progress = write.advance(request(tier)),
        }
    }
}

fn mirror() -> (Store, Store, MirroringObjectStore<Store>) {
    let primary: Store = Arc::new(InMemory::new());
    let secondary: Store = Arc::new(InMemory::new());
    let store = MirroringObjectStore::new(primary.clone(), secondary.clone());
    (primary, secondary, store)
}

fn put(store: &MirroringObjectStore<Store>, text: &str, content: &'static [u8]) {
    write(store.put_opts(&at(text)), &mut |tier| {
        block_on(store.handle(tier).put(&path(text), PutPayload::from_static(content)))
    })
    .unwrap();
}

fn copy(store: &MirroringObjectStore<Store>, from: &str, to: &str) -> Result<(), Fault> {
    write(store.copy_opts(&at(to)), &mut |tier| {
        block_on(store.handle(tier).copy(&path(from), &path(to)))
    })
}

fn delete(
    store: &MirroringObjectStore<Store>,
    text: &str,
) -> Result<Location, StoreError<Fault>> {
    let mut progress = store.delete_stream(Ok(at(text)));
    loop {
        match progress {
            Progress::Finish(result) => return result,
            Progress::Ask(delete, tier) => {
                let reply = block_on(store.handle(tier).delete(&path(text)));
                progress = delete.advance(reply.map_err(classified));
            }
        }
    }
}

#[test]
fn manifests_are_primary_only() {
    assert!(at("t/_latest.manifest").primary_only());
    assert!(at("_latest.manifest").primary_only());
    assert!(at("t/_versions/7.manifest").primary_only());
    assert!(at("t/.manifest").primary_only());
    assert!(!at("t/data.lance").primary_only());
    assert!(!at("t/_latest.manifest/x").primary_only());
    assert!(!at("t/_latest.manifest.bak").primary_only());
    assert!(!at("t/manifest").primary_only());
    assert!(!at("").primary_only());
}

#[test]
fn write_goes_to_both_stores() {
    let (primary, secondary, store) = mirror();
    put(&store, "t/data", b"content");
    assert_eq!(read(&primary, "t/data").unwrap().as_ref(), b"content");
    assert_eq!(read(&secondary, "t/data").unwrap().as_ref(), b"content");
}

#[test]
fn manifest_goes_to_the_primary_store_alone() {
    let (primary, secondary, store) = mirror();
    put(&store, "t/_latest.manifest", b"content");
    assert_eq!(read(&primary, "t/_latest.manifest").unwrap().as_ref(), b"content");
    assert_eq!(read(&secondary, "t/_latest.manifest"), None);
}

#[test]
fn write_asks_the_secondary_store_first() {
    let (_, _, store) = mirror();
    let mut asked = Vec::new();
    let result = write(store.put_opts::<u8, &str>(&at("t/data")), &mut |tier| {
        asked.push(tier);
        Ok(asked.len() as u8)
    });
    assert_eq!(result, Ok(2));
    assert_eq!(asked, vec![Tier::Secondary, Tier::Primary]);
}

#[test]
fn failing_secondary_store_keeps_the_primary_one_unasked() {
    let (_, _, store) = mirror();
    let mut asked = Vec::new();
    let result = write(store.put_opts::<u8, &str>(&at("t/data")), &mut |tier| {
        asked.push(tier);
        Err("disk")
    });
    assert_eq!(result, Err("disk"));
    assert_eq!(asked, vec![Tier::Secondary]);
}

#[test]
fn failing_primary_store_fails_the_write() {
    let (_, _, store) = mirror();
    let result = write(store.copy_opts::<u8, &str>(&at("t/data")), &mut |tier| match tier {
        Tier::Secondary => Ok(1),
        Tier::Primary => Err("network"),
    });
    assert_eq!(result, Err("network"));
}

#[test]
fn copy_follows_the_target() {
    let (primary, secondary, store) = mirror();
    put(&store, "t/data", b"content");
    copy(&store, "t/data", "t/copy").unwrap();
    assert_eq!(read(&primary, "t/copy").unwrap().as_ref(), b"content");
    assert_eq!(read(&secondary, "t/copy").unwrap().as_ref(), b"content");
    copy(&store, "t/data", "t/1.manifest").unwrap();
    assert_eq!(read(&primary, "t/1.manifest").unwrap().as_ref(), b"content");
    assert_eq!(read(&secondary, "t/1.manifest"), None);
    let refused = copy(&store, "t/1.manifest", "t/other");
    assert!(matches!(refused, Err(Fault::NotFound { .. })));
    assert_eq!(read(&primary, "t/other"), None);
}

#[test]
fn deletion_clears_both_stores() {
    let (primary, secondary, store) = mirror();
    put(&store, "t/data", b"content");
    assert_eq!(delete(&store, "t/data").unwrap().as_str(), "t/data");
    assert_eq!(read(&primary, "t/data"), None);
    assert_eq!(read(&secondary, "t/data"), None);
}

#[test]
fn deletion_tolerates_that_the_secondary_store_lacks_the_object() {
    let (_, _, store) = mirror();
    let begun: DeleteProgress<Location, &str> = store.delete_stream(Ok(at("t/data")));
    match begun {
        Progress::Ask(delete, Tier::Secondary) => {
            match delete.advance(Err(StoreError::NotFound("none"))) {
                Progress::Ask(delete, Tier::Primary) => match delete.advance::<&str>(Ok(())) {
                    Progress::Finish(Ok(location)) => assert_eq!(location.as_str(), "t/data"),
                    _ => unreachable!(),
                },
                _ => unreachable!(),
            }
        }
        _ => unreachable!(),
    }
}

#[test]
fn deletion_fails_where_a_store_fails() {
    let (_, _, store) = mirror();
    match store.delete_stream::<&str>(Ok(at("t/data"))) {
        Progress::Ask(delete, _) => assert!(matches!(
            delete.advance(Err(StoreError::Other("disk"))),
            Progress::Finish(Err(StoreError::Other("disk")))
        )),
        Progress::Finish(_) => unreachable!(),
    }
    match store.delete_stream::<&str>(Ok(at("t/_latest.manifest"))) {
        Progress::Ask(delete, Tier::Primary) => assert!(matches!(
            delete.advance(Err(StoreError::NotFound("none"))),
            Progress::Finish(Err(StoreError::NotFound("none")))
        )),
        _ => unreachable!(),
    }
    assert!(matches!(
        store.delete_stream::<&str>(Err(StoreError::Other("stream"))),
        Progress::Finish(Err(StoreError::Other("stream")))
    ));
}

#[test]
fn write_in_parts_goes_to_both_stores() {
    let (primary, secondary, store) = mirror();
    let mut progress: MultipartProgress<Box<dyn MultipartUpload>, Fault> =
        store.put_multipart_opts(&at("t/data"));
    let begun = loop {
        match progress {
            Progress::Finish(result) => break result.unwrap(),
            Progress::Ask(begin, tier) => {
                let reply = block_on(store.handle(tier).put_multipart(&path("t/data")));
                progress = begin.advance(reply);
            }
        }
    };
    let mut upload = match begun {
        BegunUpload::Mirrored(upload) => upload,
        BegunUpload::Single(_) => unreachable!(),
    };
    let (order, first) = upload.put_part();
    assert_eq!(order, (Tier::Primary, Tier::Secondary));
    let part = PutPayload::from_static(b"content");
    let mut to_primary = Some(upload.primary.put_part(part.clone()));
    let mut to_secondary = Some(upload.secondary.put_part(part));
    write(first, &mut |tier| match tier {
        Tier::Primary => block_on(to_primary.take().unwrap()),
        Tier::Secondary => block_on(to_secondary.take().unwrap()),
    })
    .unwrap();
    let first = upload.complete();
    write(first, &mut |tier| match tier {
        Tier::Primary => block_on(upload.primary.complete()),
        Tier::Secondary => block_on(upload.secondary.complete()),
    })
    .unwrap();
    assert_eq!(read(&primary, "t/data").unwrap().as_ref(), b"content");
    assert_eq!(read(&secondary, "t/data").unwrap().as_ref(), b"content");
}

#[test]
fn abandoned_write_in_parts_asks_the_secondary_store_first() {
    let upload = object_store_wrappers::mirror::MirroringUpload { primary: 1, secondary: 2 };
    let mut asked = Vec::new();
    let result = write(upload.abort::<(), &str>(), &mut |tier| {
        asked.push(tier);
        Ok(())
    });
    assert_eq!(result, Ok(()));
    assert_eq!(asked, vec![Tier::Secondary, Tier::Primary]);
}

#[test]
fn write_in_parts_of_a_manifest_is_not_mirrored() {
    let (_, _, store) = mirror();
    match store.put_multipart_opts::<u8, &str>(&at("t/1.manifest")) {
        Progress::Ask(begin, Tier::Primary) => {
            assert!(matches!(begin, MirrorMultipart::PrimaryOnly));
            assert!(matches!(
                begin.advance::<&str>(Ok(7)),
                Progress::Finish(Ok(BegunUpload::Single(7)))
            ));
        }
        _ => unreachable!(),
    }
    match store.put_multipart_opts::<u8, &str>(&at("t/data")) {
        Progress::Ask(begin, Tier::Secondary) => assert!(matches!(
            begin.advance(Err("disk")),
            Progress::Finish(Err("disk"))
        )),
        _ => unreachable!(),
    }
}

#[test]
fn reads_go_to_the_primary_store() {
    let (_, _, store) = mirror();
    assert_eq!(store.get_opts(), Tier::Primary);
    assert_eq!(store.list(), Tier::Primary);
    assert_eq!(store.list_with_delimiter(), Tier::Primary);
}

#[test]
fn wrapper_mirrors_to_its_secondary_store() {
    let primary: Store = Arc::new(InMemory::new());
    let secondary: Store = Arc::new(InMemory::new());
    let wrapper = MirroringObjectStoreWrapper::new(secondary.clone());
    let store = wrapper.wrap("s3", primary.clone());
    assert!(Arc::ptr_eq(store.handle(Tier::Primary), &primary));
    assert!(Arc::ptr_eq(store.handle(Tier::Secondary), &secondary));
}

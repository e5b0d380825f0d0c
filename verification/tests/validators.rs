use state_machine::Externalities;
use std::collections::HashMap;

#[derive(Debug, Default)]
struct TestExternalities {
    storage: HashMap<Vec<u8>, Vec<u8>>,
}

impl Externalities for TestExternalities {
    type Error = u8;

    // The trait's ghost view members; erased at runtime and never called.
    fn storage_at(&self, _key: vstd::seq::Seq<u8>) -> vstd::seq::Seq<u8> {
        unreachable!()
    }

    fn committed_view(&self) -> vstd::map::Map<vstd::seq::Seq<u8>, vstd::seq::Seq<u8>> {
        unreachable!()
    }

    fn code(&self) -> Result<Vec<u8>, Self::Error> {
        self.storage(b"\0code")
    }

    fn storage(&self, key: &[u8]) -> Result<Vec<u8>, Self::Error> {
        Ok(self.storage.get(&key.to_vec()).cloned().unwrap_or_default())
    }

    fn set_storage(&mut self, key: Vec<u8>, value: Vec<u8>) {
        self.storage.insert(key, value);
    }

    fn set_code(&mut self, code: Vec<u8>) {
        self.storage.insert(b"\0code".to_vec(), code);
    }
}

#[test]
fn validators_call_works() {
    let mut ext = TestExternalities::default();

    assert_eq!(ext.validators(), Ok(vec![]));

    ext.set_storage(b"\0validator_count".to_vec(), vec![]);
    assert_eq!(ext.validators(), Ok(vec![]));

    ext.set_storage(b"\0validator_count".to_vec(), vec![1]);
    assert_eq!(ext.validators(), Ok(vec![vec![]]));

    ext.set_storage(b"\0validator".to_vec(), b"first".to_vec());
    assert_eq!(ext.validators(), Ok(vec![b"first".to_vec()]));

    ext.set_storage(b"\0validator_count".to_vec(), vec![2]);
    ext.set_storage(b"\0validator\x01".to_vec(), b"second".to_vec());
    assert_eq!(ext.validators(), Ok(vec![b"first".to_vec(), b"second".to_vec()]));
}

#[derive(Debug, Default)]
struct FailingStorage {
    fail_all: bool,
}

impl Externalities for FailingStorage {
    type Error = u8;

    // The trait's ghost view members; erased at runtime and never called.
    fn storage_at(&self, _key: vstd::seq::Seq<u8>) -> vstd::seq::Seq<u8> {
        unreachable!()
    }

    fn committed_view(&self) -> vstd::map::Map<vstd::seq::Seq<u8>, vstd::seq::Seq<u8>> {
        unreachable!()
    }

    fn code(&self) -> Result<Vec<u8>, Self::Error> {
        Err(9)
    }

    fn storage(&self, key: &[u8]) -> Result<Vec<u8>, Self::Error> {
        if self.fail_all || key != b"\0validator_count" {
            Err(9)
        } else {
            Ok(vec![1])
        }
    }

    fn set_storage(&mut self, _key: Vec<u8>, _value: Vec<u8>) {}

    fn set_code(&mut self, _code: Vec<u8>) {}
}

#[test]
fn validators_propagates_read_failures() {
    // The count read fails: the whole operation fails with that error.
    let all = FailingStorage { fail_all: true };
    assert_eq!(all.validators(), Err(9));

    // The count reads fine but the entry read fails.
    let entries = FailingStorage { fail_all: false };
    assert_eq!(entries.validators(), Err(9));
}

//! The sparse configuration update: which commands it issues, in which
//! order, and how it stops on failure.

use std::cell::RefCell;
use std::rc::Rc;

use xbee::{Transport, Xbee, XbeeConfig, XbeeError};

/// Records every write in a shared log and acknowledges each one.
struct Recorder {
    log: Rc<RefCell<Vec<Vec<u8>>>>,
    pending: Vec<u8>,
}

impl Transport for Recorder {
    fn write(&mut self, data: &[u8]) -> Result<usize, XbeeError> {
        self.log.borrow_mut().push(data.to_vec());
        self.pending = b"OK\r".to_vec();
        Ok(data.len())
    }

    fn read(&mut self, max_len: usize) -> Result<Vec<u8>, XbeeError> {
        let n = self.pending.len().min(max_len);
        let out = self.pending[..n].to_vec();
        self.pending.drain(..n);
        Ok(out)
    }
}

/// Accepts a fixed number of writes into a shared log, then fails.
struct FailsAfter {
    remaining: usize,
    log: Rc<RefCell<Vec<Vec<u8>>>>,
}

impl Transport for FailsAfter {
    fn write(&mut self, data: &[u8]) -> Result<usize, XbeeError> {
        if self.remaining == 0 {
            return Err(XbeeError::TransportError);
        }
        self.remaining -= 1;
        self.log.borrow_mut().push(data.to_vec());
        Ok(data.len())
    }

    fn read(&mut self, _max_len: usize) -> Result<Vec<u8>, XbeeError> {
        Ok(b"OK\r".to_vec())
    }
}

#[test]
fn a_new_config_touches_nothing() {
    let config = XbeeConfig::new();
    assert_eq!(config.id, None);
    assert_eq!(config.addr, None);
    assert_eq!(config.dh, None);
    assert_eq!(config.dl, None);
}

#[test]
fn setters_fill_their_fields() {
    let mut config = XbeeConfig::new();
    config.set_id(1).set_address(2).set_dh(3).set_dl(4);
    assert_eq!(config.id, Some(1));
    assert_eq!(config.addr, Some(2));
    assert_eq!(config.dh, Some(3));
    assert_eq!(config.dl, Some(4));
}

#[test]
fn edit_config_issues_set_commands_in_fixed_order_then_commits() {
    let mut config = XbeeConfig::new();
    config.set_dl(0x2).set_id(0x6789);
    let log = Rc::new(RefCell::new(Vec::new()));
    let mut xbee = Xbee::new(Recorder { log: log.clone(), pending: Vec::new() });
    // Order follows the fields, not the setter calls; absent fields are
    // skipped; the two commit commands always close the update.
    assert_eq!(xbee.edit_config(&config), Ok(()));
    let expected: Vec<Vec<u8>> = vec![
        b"ATID6789\r".to_vec(),
        b"ATDL2\r".to_vec(),
        b"ATWR\r".to_vec(),
        b"ATAC\r".to_vec(),
    ];
    assert_eq!(*log.borrow(), expected);
}

#[test]
fn edit_config_with_every_field_covers_all_four_commands() {
    let mut config = XbeeConfig::new();
    config.set_id(1).set_address(2).set_dh(3).set_dl(4);
    let log = Rc::new(RefCell::new(Vec::new()));
    let mut xbee = Xbee::new(Recorder { log: log.clone(), pending: Vec::new() });
    assert_eq!(xbee.edit_config(&config), Ok(()));
    let expected: Vec<Vec<u8>> = vec![
        b"ATID1\r".to_vec(),
        b"ATMY2\r".to_vec(),
        b"ATDH3\r".to_vec(),
        b"ATDL4\r".to_vec(),
        b"ATWR\r".to_vec(),
        b"ATAC\r".to_vec(),
    ];
    assert_eq!(*log.borrow(), expected);
}

#[test]
fn edit_config_aborts_on_the_first_transport_failure() {
    let mut config = XbeeConfig::new();
    config.set_id(1).set_address(2).set_dh(3).set_dl(4);
    let log = Rc::new(RefCell::new(Vec::new()));
    let mut xbee = Xbee::new(FailsAfter { remaining: 2, log: log.clone() });
    assert_eq!(xbee.edit_config(&config), Err(XbeeError::TransportError));
    // The first two sets went out; the third failed and nothing more was
    // written — applied fields are not rolled back.
    let expected: Vec<Vec<u8>> = vec![b"ATID1\r".to_vec(), b"ATMY2\r".to_vec()];
    assert_eq!(*log.borrow(), expected);
}

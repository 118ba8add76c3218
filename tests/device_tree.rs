use rvirt::bringup::{guest_device_tree, guest_fdt_address, scrubbed_registers, REG_A1};
use rvirt::fdt::{check_header, initrd_range, mask_memory, memory_region, FdtError, FDT_MAGIC};

fn be32(v: &mut Vec<u8>, x: u32) {
    v.extend_from_slice(&x.to_be_bytes());
}

fn pad4(v: &mut Vec<u8>) {
    while v.len() % 4 != 0 {
        v.push(0);
    }
}

/// A small tree: a root with a `memory@80000000` node whose `reg` is
/// `<base size>` in two cells each, then `pad` zero bytes.
fn tree(base: u64, size: u64, pad: usize) -> Vec<u8> {
    tree_with_initrd(base, size, pad, None)
}

/// The same tree, with a `chosen` node naming the initrd: its start in one
/// cell, its end in two.
fn tree_with_initrd(base: u64, size: u64, pad: usize, initrd: Option<(u32, u64)>) -> Vec<u8> {
    let strings: &[u8] = b"device_type\0reg\0linux,initrd-start\0linux,initrd-end\0";
    let mut st = Vec::new();
    be32(&mut st, 1);
    be32(&mut st, 0);
    be32(&mut st, 1);
    st.extend_from_slice(b"memory@80000000\0");
    pad4(&mut st);
    be32(&mut st, 3);
    be32(&mut st, 7);
    be32(&mut st, 0);
    st.extend_from_slice(b"memory\0");
    pad4(&mut st);
    be32(&mut st, 4);
    be32(&mut st, 3);
    be32(&mut st, 16);
    be32(&mut st, 12);
    st.extend_from_slice(&base.to_be_bytes());
    st.extend_from_slice(&size.to_be_bytes());
    be32(&mut st, 2);
    if let Some((start, end)) = initrd {
        be32(&mut st, 1);
        st.extend_from_slice(b"chosen\0");
        pad4(&mut st);
        be32(&mut st, 3);
        be32(&mut st, 4);
        be32(&mut st, 16);
        be32(&mut st, start);
        be32(&mut st, 3);
        be32(&mut st, 8);
        be32(&mut st, 35);
        st.extend_from_slice(&end.to_be_bytes());
        be32(&mut st, 2);
    }
    be32(&mut st, 2);
    be32(&mut st, 9);
    let off_rsv = 40u32;
    let off_struct = off_rsv + 16;
    let off_strings = off_struct + st.len() as u32;
    let total = off_strings as usize + strings.len() + pad;
    let mut b = Vec::new();
    be32(&mut b, FDT_MAGIC);
    be32(&mut b, total as u32);
    be32(&mut b, off_struct);
    be32(&mut b, off_strings);
    be32(&mut b, off_rsv);
    be32(&mut b, 17);
    be32(&mut b, 16);
    be32(&mut b, 0);
    be32(&mut b, strings.len() as u32);
    be32(&mut b, st.len() as u32);
    b.extend_from_slice(&[0u8; 16]);
    b.extend_from_slice(&st);
    b.extend_from_slice(strings);
    b.resize(total, 0);
    b
}

fn set_be32(b: &mut Vec<u8>, at: usize, x: u32) {
    b[at..at + 4].copy_from_slice(&x.to_be_bytes());
}

#[test]
fn reads_memory_node() {
    let b = tree(0x8000_0000, 0x1_0000_0000, 0);
    let h = check_header(&b).unwrap();
    assert_eq!(h.version, 17);
    assert_eq!(h.total_size as usize, b.len());
    assert_eq!(memory_region(&b), Ok((0x8000_0000, 0x1_0000_0000)));
}

#[test]
fn total_size_at_ceiling_fails() {
    let mut b = tree(0x8000_0000, 0x1_0000_0000, 0);
    let n = b.len();
    b.resize(64 * 1024, 0);
    set_be32(&mut b, 4, 64 * 1024);
    assert_eq!(check_header(&b), Err(FdtError::TooLarge));
    set_be32(&mut b, 4, 64 * 1024 - 1);
    assert!(check_header(&b).is_ok());
    assert_eq!(memory_region(&b), Ok((0x8000_0000, 0x1_0000_0000)));
    assert!(n < 64 * 1024);
}

#[test]
fn header_errors() {
    let good = tree(0x8000_0000, 0x1000_0000, 0);
    assert_eq!(check_header(&good[..20].to_vec()), Err(FdtError::Truncated));
    let mut b = good.clone();
    b[0] = 0;
    assert_eq!(check_header(&b), Err(FdtError::BadMagic));
    let mut b = good.clone();
    set_be32(&mut b, 20, 16);
    assert_eq!(check_header(&b), Err(FdtError::UnsupportedVersion));
    let mut b = good.clone();
    set_be32(&mut b, 24, 18);
    assert_eq!(check_header(&b), Err(FdtError::UnsupportedVersion));
    let mut b = good.clone();
    b.truncate(good.len() - 1);
    assert_eq!(check_header(&b), Err(FdtError::Truncated));
    let mut b = good.clone();
    set_be32(&mut b, 8, 8);
    assert_eq!(check_header(&b), Err(FdtError::BadLayout));
}

#[test]
fn tree_without_memory_node() {
    let mut b = tree(0x8000_0000, 0x1000_0000, 0);
    // rename the node so that it no longer starts with "memory"
    let at = b.windows(6).position(|w| w == b"memory").unwrap();
    b[at] = b'x';
    assert_eq!(memory_region(&b), Err(FdtError::NoMemoryNode));
    let before = b.clone();
    assert_eq!(mask_memory(&mut b, 0x100), Err(FdtError::NoMemoryNode));
    assert_eq!(b, before);
}

#[test]
fn mask_reduces_size_only() {
    let b = tree(0x8000_0000, 0x1_0000_0000, 8);
    let mut m = b.clone();
    mask_memory(&mut m, 0x3c00_0000).unwrap();
    assert_eq!(memory_region(&m), Ok((0x8000_0000, 0x3c00_0000)));
    assert_eq!(m.len(), b.len());
    let differing: Vec<usize> = (0..b.len()).filter(|&i| b[i] != m[i]).collect();
    assert!(!differing.is_empty());
    assert!(differing.len() <= 8);
    assert!(differing.windows(2).all(|w| w[1] < w[0] + 8));
}

#[test]
fn mask_larger_extent_keeps_size() {
    let b = tree(0x8000_0000, 0x1000_0000, 0);
    let mut m = b.clone();
    mask_memory(&mut m, 0x2000_0000).unwrap();
    assert_eq!(m, b);
}

#[test]
fn mask_is_idempotent() {
    let mut once = tree(0x8000_0000, 0x1_0000_0000, 0);
    mask_memory(&mut once, 0x3c00_0000).unwrap();
    let mut twice = once.clone();
    mask_memory(&mut twice, 0x3c00_0000).unwrap();
    assert_eq!(once, twice);
}

#[test]
fn copy_elsewhere_reparses_the_same() {
    let b = tree(0x8000_0000, 0x1_0000_0000, 0);
    let mut relocated = vec![0xaau8; 3];
    relocated.extend_from_slice(&b);
    relocated.extend_from_slice(&[0xffu8; 32]);
    let copy = relocated[3..].to_vec();
    assert_eq!(memory_region(&copy), memory_region(&b));
    assert_eq!(check_header(&copy), check_header(&b));
}

#[test]
fn guest_tree_is_masked_copy() {
    let mut host = tree(0x8000_0000, 0x1_0000_0000, 0);
    let n = host.len();
    host.extend_from_slice(&[0x55u8; 64]);
    let g = guest_device_tree(&host, 0x3c00_0000).unwrap();
    assert_eq!(g.len(), n);
    assert_eq!(memory_region(&g), Ok((0x8000_0000, 0x3c00_0000)));
    host[0] = 0;
    assert_eq!(guest_device_tree(&host, 0x3c00_0000), Err(FdtError::BadMagic));
}

#[test]
fn guest_fdt_placement() {
    assert_eq!(guest_fdt_address(0x8012_3456), Some(0x8020_0000));
    assert_eq!(guest_fdt_address(0x801f_ffff), Some(0x8020_0000));
    assert_eq!(guest_fdt_address(0x8020_0000), Some(0x8040_0000));
    assert_eq!(guest_fdt_address(0), Some(0x20_0000));
    assert_eq!(guest_fdt_address(u64::MAX), None);
    assert_eq!(guest_fdt_address(u64::MAX - 0x20_0000), Some(u64::MAX - 0x1f_ffff));
}

#[test]
fn registers_scrubbed_but_a1() {
    let r = scrubbed_registers(0x8420_0000);
    assert_eq!(r.len(), 32);
    assert_eq!(r[REG_A1], 0x8420_0000);
    assert_eq!(r.iter().filter(|&&x| x != 0).count(), 1);
}

#[test]
fn reads_initrd_from_chosen() {
    let b = tree_with_initrd(0x8000_0000, 0x1_0000_0000, 0, Some((0x8400_0000, 0x8480_0000)));
    assert_eq!(initrd_range(&b), Ok(Some((0x8400_0000, 0x8480_0000))));
    assert_eq!(memory_region(&b), Ok((0x8000_0000, 0x1_0000_0000)));
    let copy = b.clone();
    assert_eq!(initrd_range(&copy), initrd_range(&b));
}

#[test]
fn no_chosen_node_means_no_initrd() {
    let b = tree(0x8000_0000, 0x1_0000_0000, 0);
    assert_eq!(initrd_range(&b), Ok(None));
    let mut bad = b.clone();
    bad[0] = 0;
    assert_eq!(initrd_range(&bad), Err(FdtError::BadMagic));
}

#[test]
fn chosen_name_must_match_whole() {
    let mut b = tree_with_initrd(0x8000_0000, 0x1_0000_0000, 0, Some((0x8400_0000, 0x8480_0000)));
    let at = b.windows(7).position(|w| w == b"chosen\0").unwrap();
    b[at + 5] = b'x';
    assert_eq!(initrd_range(&b), Ok(None));
}

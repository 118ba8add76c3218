use rvirt::boot_table::{hart_boot_page_table, mboot_page_table, satp_for};
use rvirt::pmp::{hypervisor_windows, napot_address, pack_config, PmpWindow};

#[test]
fn mboot_table_entries() {
    let pa: u64 = 0x8020_0000;
    let t = mboot_page_table(pa);
    assert_eq!(t.len(), 1024);
    assert_eq!(t[0], 0x00000000 | 0xcf);
    assert_eq!(t[1], 0);
    assert_eq!(t[2], ((pa + 4096) >> 2) | 0x01);
    assert_eq!(t[3], 0x30000000 | 0xcf);
    assert_eq!(t[511], ((pa + 4096) >> 2) | 0x01);
    assert_eq!(t[512], 0x20000000 | 0xcb);
    for i in 1..512u64 {
        assert_eq!(t[512 + i as usize], (0x20000000 + (i << 19)) | 0xc7);
    }
    assert_eq!(t.iter().filter(|&&e| e != 0).count(), 4 + 512);
    assert_eq!(satp_for(pa), 8 << 60 | (pa >> 12));
}

#[test]
fn hart_table_entries() {
    let t = hart_boot_page_table();
    assert_eq!(t.len(), 512);
    assert_eq!(t[0], 0xcf);
    assert_eq!(t[2], 0x2000_0000 | 0xcf);
    assert_eq!(t[511], 0x2000_0000 | 0xcf);
    assert_eq!(t[256], 0xc7);
    assert_eq!(t[258], (0x8000_0000u64 >> 2) | 0xc7);
    assert_eq!(t[1], 0);
    assert_eq!(t[255], 0);
}

#[test]
fn pmp_windows() {
    assert_eq!(napot_address(0x8000_0000, 0x20_0000), 0x2003_ffff);
    assert_eq!(napot_address(0x8020_0000, 0x20_0000), 0x200b_ffff);
    let w = hypervisor_windows();
    assert_eq!(
        w,
        vec![
            PmpWindow { index: 0, address: 0x2003_ffff, config: 0x9d },
            PmpWindow { index: 1, address: 0x200b_ffff, config: 0x9b },
            PmpWindow { index: 7, address: u64::MAX, config: 0x1f },
        ]
    );
    assert_eq!(pack_config(&w), 0x1f << 56 | 0x9b << 8 | 0x9d);
}

use rectangle_pack::BinSection;
use rectangle_pack::PushBinSectionError;
use rectangle_pack::TargetBin;
use rectangle_pack::WidthHeightDepth;

/// Verify that if the bin section that we are pushing is outside of the TargetBin's bounds we
/// return an error.
#[test]
fn error_if_bin_section_out_of_bounds() {
    let mut bin = empty_bin();

    let out_of_bounds = BinSection::new(101, 0, 0, WidthHeightDepth::new(1, 1, 1));

    match bin.push_available_bin_section(out_of_bounds).err().unwrap() {
        PushBinSectionError::OutOfBounds(err_bin_section) => {
            assert_eq!(err_bin_section, out_of_bounds)
        }
        _ => panic!(),
    };
}

/// Verify that if the bin section that we are pushing overlaps another bin section we return
/// an error.
#[test]
fn error_if_bin_section_overlaps_another_remaining_section() {
    let mut bin = empty_bin();

    let overlaps = BinSection::new(0, 0, 0, WidthHeightDepth::new(1, 1, 1));

    match bin.push_available_bin_section(overlaps).err().unwrap() {
        PushBinSectionError::Overlaps {
            remaining_section: err_remaining_section,
            new_section: err_new_section,
        } => {
            assert_eq!(err_new_section, overlaps);
            assert_eq!(
                err_remaining_section,
                BinSection::new(0, 0, 0, WidthHeightDepth::new(100, 100, 1))
            );
        }
        _ => panic!(),
    }
}

/// Verify that we can push a valid bin section.
#[test]
fn push_bin_section() {
    let mut bin = full_bin();

    let valid_section = BinSection::new(1, 2, 0, WidthHeightDepth::new(1, 1, 1));

    assert_eq!(bin.available_bin_sections().len(), 0);
    bin.push_available_bin_section(valid_section).unwrap();
    assert_eq!(bin.available_bin_sections().len(), 1);

    assert_eq!(bin.available_bin_sections()[0], valid_section);
}

fn empty_bin() -> TargetBin {
    TargetBin::new(100, 100, 1)
}

fn full_bin() -> TargetBin {
    let mut bin = TargetBin::new(100, 100, 1);

    bin.remove_filled_section(0);

    bin
}

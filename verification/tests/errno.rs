use droidvm::errno;

#[test]
fn the_numbers_are_the_platforms() {
    assert_eq!(errno::ENOENT, libc::ENOENT);
    assert_eq!(errno::EIO, libc::EIO);
    assert_eq!(errno::EAGAIN, libc::EAGAIN);
    assert_eq!(errno::ENOMEM, libc::ENOMEM);
    assert_eq!(errno::EACCES, libc::EACCES);
    assert_eq!(errno::EFAULT, libc::EFAULT);
    assert_eq!(errno::EBUSY, libc::EBUSY);
    assert_eq!(errno::EEXIST, libc::EEXIST);
    assert_eq!(errno::ENODEV, libc::ENODEV);
    assert_eq!(errno::EINVAL, libc::EINVAL);
    assert_eq!(errno::ENOTTY, libc::ENOTTY);
    assert_eq!(errno::ENOSPC, libc::ENOSPC);
    assert_eq!(errno::ENOSYS, libc::ENOSYS);
    assert_eq!(errno::EOVERFLOW, libc::EOVERFLOW);
    assert_eq!(errno::ETIMEDOUT, libc::ETIMEDOUT);
}

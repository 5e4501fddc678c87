//! What the monitor makes of an operation on a device.
//!
//! Finding a device and operating it happens outside. Each function here takes the outcome: either
//! the device was not found, or it was and the operation ended one way or the other.

use crate::error::{
    BalloonError, BlockError, FindDeviceError, I8042DeviceError, VirtioMemError, VmmError,
};
use crate::vmm::Vmm;
use vstd::prelude::*;

verus! {

/// An operation that cannot fail: only the search for its device can.
pub open spec fn found<T>(outcome: Result<T, FindDeviceError>) -> Result<T, VmmError> {
    match outcome {
        Ok(value) => Ok(value),
        Err(e) => Err(VmmError::FindDeviceError(e)),
    }
}

/// An operation on a block device.
pub open spec fn on_block<T>(outcome: Result<Result<T, BlockError>, FindDeviceError>) -> Result<
    T,
    VmmError,
> {
    match outcome {
        Ok(Ok(value)) => Ok(value),
        Ok(Err(e)) => Err(VmmError::Block(e)),
        Err(e) => Err(VmmError::FindDeviceError(e)),
    }
}

/// An operation on the balloon.
pub open spec fn on_balloon<T>(
    outcome: Result<Result<T, BalloonError>, FindDeviceError>,
) -> Result<T, VmmError> {
    match outcome {
        Ok(Ok(value)) => Ok(value),
        Ok(Err(e)) => Err(VmmError::Balloon(e)),
        Err(e) => Err(VmmError::FindDeviceError(e)),
    }
}

/// An operation on the memory hotplug device.
pub open spec fn on_memory<T>(
    outcome: Result<Result<T, VirtioMemError>, FindDeviceError>,
) -> Result<T, VmmError> {
    match outcome {
        Ok(Ok(value)) => Ok(value),
        Ok(Err(e)) => Err(VmmError::VirtioMem(e)),
        Err(e) => Err(VmmError::FindDeviceError(e)),
    }
}

fn report_found<T>(outcome: Result<T, FindDeviceError>) -> (res: Result<T, VmmError>)
    ensures
        res == found(outcome),
{
    match outcome {
        Ok(value) => Ok(value),
        Err(e) => Err(VmmError::FindDeviceError(e)),
    }
}

fn report_block<T>(outcome: Result<Result<T, BlockError>, FindDeviceError>) -> (res: Result<
    T,
    VmmError,
>)
    ensures
        res == on_block(outcome),
{
    match outcome {
        Ok(Ok(value)) => Ok(value),
        Ok(Err(e)) => Err(VmmError::Block(e)),
        Err(e) => Err(VmmError::FindDeviceError(e)),
    }
}

fn report_balloon<T>(outcome: Result<Result<T, BalloonError>, FindDeviceError>) -> (res: Result<
    T,
    VmmError,
>)
    ensures
        res == on_balloon(outcome),
{
    match outcome {
        Ok(Ok(value)) => Ok(value),
        Ok(Err(e)) => Err(VmmError::Balloon(e)),
        Err(e) => Err(VmmError::FindDeviceError(e)),
    }
}

impl<'a> Vmm<'a> {
    /// Injects CTRL+ALT+DEL through the keyboard controller.
    pub fn send_ctrl_alt_del(&self, outcome: Result<(), I8042DeviceError>) -> (res: Result<
        (),
        VmmError,
    >)
        ensures
            res == match outcome {
                Ok(_) => Ok::<(), VmmError>(()),
                Err(e) => Err(VmmError::I8042Error(e)),
            },
    {
        match outcome {
            Ok(()) => Ok(()),
            Err(e) => Err(VmmError::I8042Error(e)),
        }
    }

    /// Asks the memory hotplug device for another size.
    pub fn update_memory_hotplug_size(
        &self,
        outcome: Result<Result<(), VirtioMemError>, FindDeviceError>,
    ) -> (res: Result<(), VmmError>)
        ensures
            res == on_memory(outcome),
    {
        match outcome {
            Ok(Ok(())) => Ok(()),
            Ok(Err(e)) => Err(VmmError::VirtioMem(e)),
            Err(e) => Err(VmmError::FindDeviceError(e)),
        }
    }

    /// The dirty blocks of a drive.
    pub fn get_block_dirty_bitmap<D>(
        &self,
        outcome: Result<D, FindDeviceError>,
    ) -> (res: Result<D, VmmError>)
        ensures
            res == found(outcome),
    {
        report_found(outcome)
    }

    /// Changes the host file behind a drive.
    pub fn update_block_device_path(
        &self,
        outcome: Result<Result<(), BlockError>, FindDeviceError>,
    ) -> (res: Result<(), VmmError>)
        ensures
            res == on_block(outcome),
    {
        report_block(outcome)
    }

    /// Changes the rate limits of a drive.
    pub fn update_block_rate_limiter(
        &self,
        outcome: Result<Result<(), BlockError>, FindDeviceError>,
    ) -> (res: Result<(), VmmError>)
        ensures
            res == on_block(outcome),
    {
        report_block(outcome)
    }

    /// Rereads the configuration of a vhost-user drive.
    pub fn update_vhost_user_block_config(
        &self,
        outcome: Result<Result<(), BlockError>, FindDeviceError>,
    ) -> (res: Result<(), VmmError>)
        ensures
            res == on_block(outcome),
    {
        report_block(outcome)
    }

    /// Changes the rate limits of a network device.
    pub fn update_net_rate_limiters(
        &self,
        outcome: Result<(), FindDeviceError>,
    ) -> (res: Result<(), VmmError>)
        ensures
            res == found(outcome),
    {
        report_found(outcome)
    }

    /// The configuration of the balloon.
    pub fn balloon_config<C>(
        &self,
        outcome: Result<C, FindDeviceError>,
    ) -> (res: Result<C, VmmError>)
        ensures
            res == found(outcome),
    {
        report_found(outcome)
    }

    /// The latest statistics of the balloon, if they are enabled.
    pub fn latest_balloon_stats<S>(
        &self,
        outcome: Result<Result<S, BalloonError>, FindDeviceError>,
    ) -> (res: Result<S, VmmError>)
        ensures
            res == on_balloon(outcome),
    {
        report_balloon(outcome)
    }

    /// Changes the target size of the balloon.
    pub fn update_balloon_config(
        &self,
        outcome: Result<Result<(), BalloonError>, FindDeviceError>,
    ) -> (res: Result<(), VmmError>)
        ensures
            res == on_balloon(outcome),
    {
        report_balloon(outcome)
    }

    /// Changes how often the balloon's statistics are polled.
    pub fn update_balloon_stats_config(
        &self,
        outcome: Result<Result<(), BalloonError>, FindDeviceError>,
    ) -> (res: Result<(), VmmError>)
        ensures
            res == on_balloon(outcome),
    {
        report_balloon(outcome)
    }

    /// Starts a free page hinting run of the balloon.
    pub fn start_balloon_hinting(
        &self,
        outcome: Result<Result<(), BalloonError>, FindDeviceError>,
    ) -> (res: Result<(), VmmError>)
        ensures
            res == on_balloon(outcome),
    {
        report_balloon(outcome)
    }

    /// The status of the balloon's hinting run.
    pub fn get_balloon_hinting_status<H>(
        &self,
        outcome: Result<Result<H, BalloonError>, FindDeviceError>,
    ) -> (res: Result<H, VmmError>)
        ensures
            res == on_balloon(outcome),
    {
        report_balloon(outcome)
    }

    /// Stops the balloon's hinting run.
    pub fn stop_balloon_hinting(
        &self,
        outcome: Result<Result<(), BalloonError>, FindDeviceError>,
    ) -> (res: Result<(), VmmError>)
        ensures
            res == on_balloon(outcome),
    {
        report_balloon(outcome)
    }

    /// The state of the memory hotplug device.
    pub fn memory_hotplug_status<S>(
        &self,
        outcome: Result<S, FindDeviceError>,
    ) -> (res: Result<S, VmmError>)
        ensures
            res == found(outcome),
    {
        report_found(outcome)
    }
}

} // verus!

pub mod block_device;
